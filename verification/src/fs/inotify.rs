//! inotify: instances with their watches and queued events, the registry that finds the
//! watches of a node, and the events that changes to nodes produce.
use vstd::prelude::*;

use crate::fs::error::FsError;
use crate::fs::poll::POLL_READ;
use crate::wire::{i32_le, push_bytes, push_i32, push_u32, u32_le};

verus! {

pub const IN_ACCESS: u32 = 0x0000_0001;
pub const IN_MODIFY: u32 = 0x0000_0002;
pub const IN_ATTRIB: u32 = 0x0000_0004;
pub const IN_CLOSE_WRITE: u32 = 0x0000_0008;
pub const IN_CLOSE_NOWRITE: u32 = 0x0000_0010;
pub const IN_OPEN: u32 = 0x0000_0020;
pub const IN_MOVED_FROM: u32 = 0x0000_0040;
pub const IN_MOVED_TO: u32 = 0x0000_0080;
pub const IN_CREATE: u32 = 0x0000_0100;
pub const IN_DELETE: u32 = 0x0000_0200;
pub const IN_DELETE_SELF: u32 = 0x0000_0400;
pub const IN_MOVE_SELF: u32 = 0x0000_0800;
pub const IN_UNMOUNT: u32 = 0x0000_2000;
pub const IN_Q_OVERFLOW: u32 = 0x0000_4000;
pub const IN_IGNORED: u32 = 0x0000_8000;
pub const IN_ONLYDIR: u32 = 0x0100_0000;
pub const IN_DONT_FOLLOW: u32 = 0x0200_0000;
pub const IN_EXCL_UNLINK: u32 = 0x0400_0000;
pub const IN_MASK_CREATE: u32 = 0x1000_0000;
pub const IN_MASK_ADD: u32 = 0x2000_0000;
pub const IN_ISDIR: u32 = 0x4000_0000;
pub const IN_ONESHOT: u32 = 0x8000_0000;
/// Every event a watch can ask for.
pub const IN_ALL_EVENTS: u32 = IN_ACCESS | IN_MODIFY | IN_ATTRIB | IN_CLOSE_WRITE
    | IN_CLOSE_NOWRITE | IN_OPEN | IN_MOVED_FROM | IN_MOVED_TO | IN_CREATE | IN_DELETE
    | IN_DELETE_SELF | IN_MOVE_SELF;
/// The flags `inotify_init1` takes: `IN_NONBLOCK` and `IN_CLOEXEC`.
pub const INOTIFY_INIT1_VALID_FLAGS: u64 = 0o0004000 | 0o2000000;
/// The bits `inotify_add_watch` takes.
pub const INOTIFY_ADD_WATCH_VALID_MASK: u32 = IN_ALL_EVENTS | IN_UNMOUNT | IN_ONLYDIR
    | IN_DONT_FOLLOW | IN_EXCL_UNLINK | IN_MASK_CREATE | IN_MASK_ADD | IN_ONESHOT;

/// The record `read` gives for one event: watch descriptor, mask, cookie, name length
/// (the name, its NUL, and padding to four bytes), then the name padded with zero bytes.
pub open spec fn spec_encode_event(wd: i32, mask: u32, cookie: u32, name: Seq<u8>) -> Seq<u8> {
    let name_len: int = if name.len() == 0 {
        0
    } else {
        name.len() + 1int
    };
    let padded: int = (name_len + 3) / 4 * 4;
    i32_le(wd) + u32_le(mask) + u32_le(cookie) + u32_le(padded as u32) + name + Seq::new(
        (padded - name.len()) as nat,
        |i: int| 0u8,
    )
}

/// Encodes one event; an empty name stands for none.
pub fn encode_event(wd: i32, mask: u32, cookie: u32, name: &[u8]) -> (r: Vec<u8>)
    requires
        name@.len() + 4 <= u32::MAX,
    ensures
        r@ == spec_encode_event(wd, mask, cookie, name@),
{
    let name_len: usize = if name.len() == 0 {
        0
    } else {
        name.len() + 1
    };
    let padded: usize = (name_len + 3) / 4 * 4;
    let mut bytes: Vec<u8> = Vec::new();
    push_i32(&mut bytes, wd);
    push_u32(&mut bytes, mask);
    push_u32(&mut bytes, cookie);
    push_u32(&mut bytes, padded as u32);
    push_bytes(&mut bytes, name);
    let ghost head = bytes@;
    let mut i: usize = name.len();
    while i < padded
        invariant
            name.len() <= i <= padded,
            bytes@ == head + Seq::new((i - name.len()) as nat, |k: int| 0u8),
        decreases padded - i,
    {
        bytes.push(0);
        assert(head + Seq::new((i + 1 - name.len()) as nat, |k: int| 0u8) =~= (head + Seq::new(
            (i - name.len()) as nat,
            |k: int| 0u8,
        )).push(0));
        i += 1;
    }
    bytes
}

/// A watched node: its device and inode numbers.
#[derive(Debug, Clone, Copy, PartialEq, Eq, Structural)]
pub struct WatchTarget {
    pub device_id: u64,
    pub inode: u64,
}

/// One watch of an instance: what it watches and for which events.
#[derive(Debug, Clone, Copy, PartialEq, Eq, Structural)]
pub struct InotifyWatch {
    pub target: WatchTarget,
    pub mask: u32,
}

/// One instance's watch on a node, as the registry knows it.
#[derive(Debug, Clone, Copy, PartialEq, Eq, Structural)]
pub struct WatchRegistration {
    pub instance_id: u64,
    pub wd: i32,
}

/// An instance as a value.
pub struct InotifyFileView {
    pub instance_id: u64,
    pub next_watch_descriptor: i32,
    pub watches: Seq<(i32, InotifyWatch)>,
    pub events: Seq<Seq<u8>>,
}

/// The watch with descriptor `wd`, if any.
pub open spec fn watch_of(watches: Seq<(i32, InotifyWatch)>, wd: i32) -> Option<InotifyWatch>
    decreases watches.len(),
{
    if watches.len() == 0 {
        None
    } else if watches[0].0 == wd {
        Some(watches[0].1)
    } else {
        watch_of(watches.drop_first(), wd)
    }
}

/// The watches without the one with descriptor `wd`.
pub open spec fn without_watch(watches: Seq<(i32, InotifyWatch)>, wd: i32) -> Seq<(i32, InotifyWatch)>
    decreases watches.len(),
{
    if watches.len() == 0 {
        watches
    } else if watches[0].0 == wd {
        watches.drop_first()
    } else {
        seq![watches[0]] + without_watch(watches.drop_first(), wd)
    }
}

/// `i` is the first watch on `target`.
pub open spec fn is_first_watch_on(watches: Seq<(i32, InotifyWatch)>, target: WatchTarget, i: int) -> bool {
    &&& 0 <= i < watches.len()
    &&& watches[i].1.target == target
    &&& forall|j: int| 0 <= j < i ==> (#[trigger] watches[j]).1.target != target
}

/// The watch descriptors ascend strictly and lie below the next one.
pub open spec fn watches_wf(f: InotifyFileView) -> bool {
    &&& forall|i: int, j: int| 0 <= i < j < f.watches.len() ==> f.watches[i].0 < f.watches[j].0
    &&& forall|i: int| 0 <= i < f.watches.len() ==> (#[trigger] f.watches[i]).0 < f.next_watch_descriptor
}

/// The event queue and waiters of one inotify instance, with its watches by descriptor.
pub struct InotifyFile {
    pub instance_id: u64,
    pub next_watch_descriptor: i32,
    pub watches: Vec<(i32, InotifyWatch)>,
    pub events: Vec<Vec<u8>>,
}

impl View for InotifyFile {
    type V = InotifyFileView;

    open spec fn view(&self) -> InotifyFileView {
        InotifyFileView {
            instance_id: self.instance_id,
            next_watch_descriptor: self.next_watch_descriptor,
            watches: self.watches@,
            events: self.events@.map_values(|e: Vec<u8>| e@),
        }
    }
}

/// What `add_watch` did to an instance's own watches: the descriptor, and whether the
/// watch is new (and so has to be registered).
#[derive(Debug, Clone, Copy, PartialEq, Eq, Structural)]
pub struct AddedWatch {
    pub wd: i32,
    pub created: bool,
}

/// The mask a watch keeps: the request without `IN_MASK_ADD` and `IN_MASK_CREATE`.
pub open spec fn normalized_mask(mask: u32) -> u32 {
    mask & !IN_MASK_ADD & !IN_MASK_CREATE
}

/// What `add_watch` makes of an instance's watches: the first watch on the node is
/// refused under `IN_MASK_CREATE`, widened under `IN_MASK_ADD`, replaced otherwise; a node
/// without one gets a new watch under the next descriptor.
pub open spec fn spec_add_watch_entry(f: InotifyFileView, target: WatchTarget, mask: u32) -> Result<
    (InotifyFileView, AddedWatch),
    FsError,
> {
    if exists|i: int| is_first_watch_on(f.watches, target, i) {
        let i = choose|i: int| is_first_watch_on(f.watches, target, i);
        let (wd, watch) = f.watches[i];
        if mask & IN_MASK_CREATE != 0 {
            Err(FsError::AlreadyExists)
        } else {
            let new_mask = if mask & IN_MASK_ADD != 0 {
                watch.mask | normalized_mask(mask)
            } else {
                normalized_mask(mask)
            };
            Ok(
                (
                    InotifyFileView {
                        watches: f.watches.update(i, (wd, InotifyWatch { target, mask: new_mask })),
                        ..f
                    },
                    AddedWatch { wd, created: false },
                ),
            )
        }
    } else {
        Ok(
            (
                InotifyFileView {
                    next_watch_descriptor: (f.next_watch_descriptor + 1) as i32,
                    watches: f.watches.push(
                        (f.next_watch_descriptor, InotifyWatch { target, mask: normalized_mask(mask) }),
                    ),
                    ..f
                },
                AddedWatch { wd: f.next_watch_descriptor, created: true },
            ),
        )
    }
}

/// How many queued events fit, oldest first, in `len` bytes.
pub open spec fn events_fitting(events: Seq<Seq<u8>>, len: int) -> nat
    decreases events.len(),
{
    if events.len() == 0 || events[0].len() > len {
        0
    } else {
        1 + events_fitting(events.drop_first(), len - events[0].len())
    }
}

/// The concatenation of events.
pub open spec fn concat_events(events: Seq<Seq<u8>>) -> Seq<u8>
    decreases events.len(),
{
    if events.len() == 0 {
        Seq::empty()
    } else {
        concat_events(events.drop_last()) + events.last()
    }
}

proof fn lemma_concat_push(events: Seq<Seq<u8>>, e: Seq<u8>)
    ensures
        concat_events(events.push(e)) == concat_events(events) + e,
{
    assert(events.push(e).drop_last() =~= events);
}

proof fn lemma_events_fitting_step(events: Seq<Seq<u8>>, taken: int, len: int, used: int)
    requires
        0 <= taken < events.len(),
        used == concat_events(events.take(taken)).len(),
        used <= len,
        events_fitting(events.skip(taken), len - used) == events_fitting(events, len) - taken,
        events[taken].len() <= len - used,
    ensures
        events_fitting(events.skip(taken + 1), len - used - events[taken].len()) == events_fitting(
            events,
            len,
        ) - (taken + 1),
{
    assert(events.skip(taken).drop_first() =~= events.skip(taken + 1));
    assert(events.skip(taken)[0] == events[taken]);
}

impl InotifyFile {
    /// A new instance: no watches, nothing queued; descriptors start at 1.
    pub fn new(instance_id: u64) -> (r: Self)
        ensures
            r@ == (InotifyFileView {
                instance_id,
                next_watch_descriptor: 1,
                watches: Seq::empty(),
                events: Seq::empty(),
            }),
            watches_wf(r@),
    {
        let r = InotifyFile {
            instance_id,
            next_watch_descriptor: 1,
            watches: Vec::new(),
            events: Vec::new(),
        };
        assert(r@.events =~= Seq::<Seq<u8>>::empty());
        r
    }

    /// The watch with descriptor `wd`, if any.
    pub fn watch(&self, wd: i32) -> (r: Option<InotifyWatch>)
        ensures
            r == watch_of(self@.watches, wd),
    {
        let mut i: usize = 0;
        assert(self@.watches.skip(0) =~= self@.watches);
        while i < self.watches.len()
            invariant
                i <= self.watches.len(),
                watch_of(self@.watches, wd) == watch_of(self@.watches.skip(i as int), wd),
            decreases self.watches.len() - i,
        {
            let (w, watch) = self.watches[i];
            assert(self@.watches.skip(i as int)[0] == (w, watch));
            assert(self@.watches.skip(i as int).drop_first() =~= self@.watches.skip(i + 1));
            if w == wd {
                return Some(watch);
            }
            i += 1;
        }
        None
    }

    /// The instance's own part of `add_watch`; see `spec_add_watch_entry`. A new watch
    /// needs a descriptor below `i32::MAX`.
    pub fn add_watch_entry(&mut self, target: WatchTarget, mask: u32) -> (r: Result<AddedWatch, FsError>)
        requires
            watches_wf(old(self)@),
            old(self)@.next_watch_descriptor < i32::MAX,
        ensures
            watches_wf(final(self)@),
            match spec_add_watch_entry(old(self)@, target, mask) {
                Ok((f, added)) => r == Ok::<AddedWatch, FsError>(added) && final(self)@ == f,
                Err(e) => r == Err::<AddedWatch, FsError>(e) && final(self)@ == old(self)@,
            },
    {
        let normalized = mask & !IN_MASK_ADD & !IN_MASK_CREATE;
        let mut i: usize = 0;
        while i < self.watches.len()
            invariant
                i <= self.watches.len(),
                self@ == old(self)@,
                watches_wf(self@),
                self.next_watch_descriptor < i32::MAX,
                normalized == normalized_mask(mask),
                forall|j: int| 0 <= j < i ==> (#[trigger] self.watches@[j]).1.target != target,
            decreases self.watches.len() - i,
        {
            let (wd, watch) = self.watches[i];
            if watch.target == target {
                assert(is_first_watch_on(self@.watches, target, i as int));
                proof {
                    let k = choose|k: int| is_first_watch_on(self@.watches, target, k);
                    if k < i {
                        assert(self@.watches[k].1.target != target);
                    } else if k > i {
                        assert(self@.watches[i as int].1.target != target);
                    }
                }
                if mask & IN_MASK_CREATE != 0 {
                    return Err(FsError::AlreadyExists);
                }
                let new_mask = if mask & IN_MASK_ADD != 0 {
                    watch.mask | normalized
                } else {
                    normalized
                };
                let ghost before = self@;
                self.watches.set(i, (wd, InotifyWatch { target, mask: new_mask }));
                proof {
                    let k = choose|k: int| is_first_watch_on(before.watches, target, k);
                    assert(k == i);
                    assert(before.watches[k] == (wd, watch));
                    let expected = InotifyFileView {
                        watches: before.watches.update(i as int, (wd, InotifyWatch { target, mask: new_mask })),
                        ..before
                    };
                    assert(self@ == expected);
                    assert(spec_add_watch_entry(before, target, mask) == Ok::<(InotifyFileView, AddedWatch), FsError>(
                        (expected, AddedWatch { wd, created: false }),
                    ));
                }
                return Ok(AddedWatch { wd, created: false });
            }
            i += 1;
        }
        assert(!exists|k: int| is_first_watch_on(self@.watches, target, k));
        let wd = self.next_watch_descriptor;
        self.watches.push((wd, InotifyWatch { target, mask: normalized }));
        self.next_watch_descriptor = wd + 1;
        Ok(AddedWatch { wd, created: true })
    }

    /// Takes the watch with descriptor `wd` away and tells what it watched; `InvalidInput`
    /// when there is none.
    pub fn remove_watch_registration(&mut self, wd: i32) -> (r: Result<WatchTarget, FsError>)
        requires
            watches_wf(old(self)@),
        ensures
            watches_wf(final(self)@),
            match watch_of(old(self)@.watches, wd) {
                Some(w) => r == Ok::<WatchTarget, FsError>(w.target) && final(self)@ == (
                InotifyFileView { watches: without_watch(old(self)@.watches, wd), ..old(self)@ }),
                None => r == Err::<WatchTarget, FsError>(FsError::InvalidInput) && final(self)@
                    == old(self)@,
            },
    {
        let mut i: usize = 0;
        while i < self.watches.len()
            invariant
                i <= self.watches.len(),
                self@ == old(self)@,
                watches_wf(self@),
                forall|j: int| 0 <= j < i ==> (#[trigger] self.watches@[j]).0 != wd,
            decreases self.watches.len() - i,
        {
            if self.watches[i].0 == wd {
                let ghost before = self@.watches;
                proof {
                    lemma_watch_at(before, wd, i as int);
                }
                let (_, watch) = self.watches.remove(i);
                assert(self@.watches =~= before.remove(i as int));
                proof {
                    assert forall|a: int, b: int|
                        0 <= a < b < self@.watches.len() implies self@.watches[a].0
                        < self@.watches[b].0 by {
                        let oa = if a < i {
                            a
                        } else {
                            a + 1
                        };
                        let ob = if b < i {
                            b
                        } else {
                            b + 1
                        };
                        assert(self@.watches[a] == before[oa]);
                        assert(self@.watches[b] == before[ob]);
                    }
                    assert forall|a: int| 0 <= a < self@.watches.len() implies (
                    #[trigger] self@.watches[a]).0 < self@.next_watch_descriptor by {
                        let oa = if a < i {
                            a
                        } else {
                            a + 1
                        };
                        assert(self@.watches[a] == before[oa]);
                    }
                }
                return Ok(watch.target);
            }
            i += 1;
        }
        proof {
            lemma_watch_absent(self@.watches, wd);
        }
        Err(FsError::InvalidInput)
    }

    /// Queues an event; tells whether the queue was empty, so readers have to be woken.
    pub fn push_event(&mut self, event: Vec<u8>) -> (r: bool)
        ensures
            r == (old(self)@.events.len() == 0),
            final(self)@ == (InotifyFileView { events: old(self)@.events.push(event@), ..old(self)@ }),
    {
        let was_empty = self.events.len() == 0;
        let ghost before = self.events@;
        let ghost e = event@;
        self.events.push(event);
        assert(self.events@.map_values(|x: Vec<u8>| x@) =~= before.map_values(|x: Vec<u8>| x@).push(
            e,
        ));
        was_empty
    }

    /// `read`: as many whole events as fit in `len` bytes, oldest first; `WouldBlock` when
    /// none is queued, `InvalidInput` when the oldest does not fit.
    pub fn read(&mut self, len: usize) -> (r: Result<Vec<u8>, FsError>)
        ensures
            len == 0 ==> (r matches Ok(bytes) && bytes@.len() == 0),
            len == 0 ==> final(self)@ == old(self)@,
            len > 0 && old(self)@.events.len() == 0 ==> r == Err::<Vec<u8>, FsError>(
                FsError::WouldBlock,
            ) && final(self)@ == old(self)@,
            len > 0 && old(self)@.events.len() > 0 && old(self)@.events[0].len() > len ==> r
                == Err::<Vec<u8>, FsError>(FsError::InvalidInput) && final(self)@ == old(self)@,
            len > 0 && old(self)@.events.len() > 0 && old(self)@.events[0].len() <= len ==> {
                let n = events_fitting(old(self)@.events, len as int) as int;
                &&& r matches Ok(bytes)
                &&& bytes@ == concat_events(old(self)@.events.take(n))
                &&& final(self)@ == (InotifyFileView {
                    events: old(self)@.events.skip(n),
                    ..old(self)@
                })
            },
    {
        if len == 0 {
            return Ok(Vec::new());
        }
        if self.events.len() == 0 {
            return Err(FsError::WouldBlock);
        }
        let ghost events = self@.events;
        assert(events[0] == self.events@[0]@);
        if len < self.events[0].len() {
            return Err(FsError::InvalidInput);
        }
        let mut out: Vec<u8> = Vec::new();
        let mut taken: usize = 0;
        assert(events.skip(0) =~= events);
        assert(events.take(0) =~= Seq::<Seq<u8>>::empty());
        while taken < self.events.len() && self.events[taken].len() <= len - out.len()
            invariant
                events == self.events@.map_values(|e: Vec<u8>| e@),
                taken <= self.events.len(),
                out@ == concat_events(events.take(taken as int)),
                out@.len() <= len,
                events_fitting(events.skip(taken as int), len - out@.len()) == events_fitting(
                    events,
                    len as int,
                ) - taken,
            decreases self.events.len() - taken,
        {
            assert(events[taken as int] == self.events@[taken as int]@);
            proof {
                lemma_events_fitting_step(events, taken as int, len as int, out@.len() as int);
                lemma_concat_push(events.take(taken as int), events[taken as int]);
                assert(events.take(taken + 1) =~= events.take(taken as int).push(events[taken as int]));
            }
            push_bytes(&mut out, self.events[taken].as_slice());
            taken += 1;
        }
        proof {
            let rest = events.skip(taken as int);
            if taken < events.len() {
                assert(rest[0] == events[taken as int]);
                assert(rest[0].len() > len - out@.len());
            }
            assert(events_fitting(rest, len - out@.len()) == 0);
        }
        let ghost queued = self.events@;
        let rest = self.events.split_off(taken);
        self.events = rest;
        assert(self.events@.map_values(|e: Vec<u8>| e@) =~= events.skip(taken as int));
        Ok(out)
    }

    /// Readable while an event is queued.
    pub fn poll(&self, events: u32) -> (r: u32)
        ensures
            r == if events & POLL_READ != 0 && self@.events.len() > 0 {
                POLL_READ
            } else {
                0
            },
    {
        if events & POLL_READ != 0 && self.events.len() > 0 {
            POLL_READ
        } else {
            0
        }
    }
}

proof fn lemma_watch_at(watches: Seq<(i32, InotifyWatch)>, wd: i32, i: int)
    requires
        0 <= i < watches.len(),
        watches[i].0 == wd,
        forall|j: int| 0 <= j < i ==> (#[trigger] watches[j]).0 != wd,
    ensures
        watch_of(watches, wd) == Some(watches[i].1),
        without_watch(watches, wd) == watches.remove(i),
    decreases i,
{
    if i > 0 {
        let rest = watches.drop_first();
        assert forall|j: int| 0 <= j < i - 1 implies (#[trigger] rest[j]).0 != wd by {
            assert(rest[j] == watches[j + 1]);
        }
        lemma_watch_at(rest, wd, i - 1);
        assert(watches[0].0 != wd);
        assert(seq![watches[0]] + rest.remove(i - 1) =~= watches.remove(i));
    } else {
        assert(watches.drop_first() =~= watches.remove(0));
    }
}

proof fn lemma_watch_absent(watches: Seq<(i32, InotifyWatch)>, wd: i32)
    requires
        forall|j: int| 0 <= j < watches.len() ==> (#[trigger] watches[j]).0 != wd,
    ensures
        watch_of(watches, wd) is None,
        without_watch(watches, wd) == watches,
    decreases watches.len(),
{
    if watches.len() > 0 {
        let rest = watches.drop_first();
        assert forall|j: int| 0 <= j < rest.len() implies (#[trigger] rest[j]).0 != wd by {
            assert(rest[j] == watches[j + 1]);
        }
        lemma_watch_absent(rest, wd);
        assert(watches[0].0 != wd);
        assert(seq![watches[0]] + rest =~= watches);
    }
}

/// What the registry knows: the live instances, every registration (the node it is on,
/// the instance and the descriptor) in the order they were made, and the instances
/// whose readers are to be woken, in order.
pub struct InotifyState {
    pub instances: Seq<InotifyFileView>,
    pub registrations: Seq<(WatchTarget, WatchRegistration)>,
    pub woken: Seq<u64>,
}

/// Whether a registration stays: those on other nodes always do; on `target`, none does
/// when `drop_all`, the one of (`instance_id`, `wd`) does not when `drop_pair`, and those
/// of closed instances do not when `prune`.
pub open spec fn registration_kept(
    p: (WatchTarget, WatchRegistration),
    instances: Seq<InotifyFileView>,
    target: WatchTarget,
    drop_all: bool,
    drop_pair: bool,
    prune: bool,
    instance_id: u64,
    wd: i32,
) -> bool {
    p.0 != target || (!drop_all && !(drop_pair && p.1.instance_id == instance_id && p.1.wd == wd)
        && (!prune || alive(instances, p.1.instance_id)))
}

/// The registrations that stay, in order; see `registration_kept`.
pub open spec fn spec_retain(
    registrations: Seq<(WatchTarget, WatchRegistration)>,
    instances: Seq<InotifyFileView>,
    target: WatchTarget,
    drop_all: bool,
    drop_pair: bool,
    prune: bool,
    instance_id: u64,
    wd: i32,
) -> Seq<(WatchTarget, WatchRegistration)>
    decreases registrations.len(),
{
    if registrations.len() == 0 {
        registrations
    } else {
        let rest = spec_retain(
            registrations.drop_last(),
            instances,
            target,
            drop_all,
            drop_pair,
            prune,
            instance_id,
            wd,
        );
        if registration_kept(
            registrations.last(),
            instances,
            target,
            drop_all,
            drop_pair,
            prune,
            instance_id,
            wd,
        ) {
            rest.push(registrations.last())
        } else {
            rest
        }
    }
}

/// The registrations on `target`, in order.
pub open spec fn registrations_on(
    registrations: Seq<(WatchTarget, WatchRegistration)>,
    target: WatchTarget,
) -> Seq<WatchRegistration>
    decreases registrations.len(),
{
    if registrations.len() == 0 {
        Seq::empty()
    } else {
        let rest = registrations_on(registrations.drop_last(), target);
        if registrations.last().0 == target {
            rest.push(registrations.last().1)
        } else {
            rest
        }
    }
}

/// `i` is the first instance with `id`.
pub open spec fn is_instance_at(instances: Seq<InotifyFileView>, id: u64, i: int) -> bool {
    &&& 0 <= i < instances.len()
    &&& instances[i].instance_id == id
    &&& forall|j: int| 0 <= j < i ==> (#[trigger] instances[j]).instance_id != id
}

/// Whether an instance with `id` is still open.
pub open spec fn alive(instances: Seq<InotifyFileView>, id: u64) -> bool {
    exists|i: int| 0 <= i < instances.len() && (#[trigger] instances[i]).instance_id == id
}

/// The registrations after one instance's watch on `target` is dropped, together with
/// those of closed instances on `target`.
pub open spec fn spec_unregister(
    registrations: Seq<(WatchTarget, WatchRegistration)>,
    instances: Seq<InotifyFileView>,
    target: WatchTarget,
    instance_id: u64,
    wd: i32,
) -> Seq<(WatchTarget, WatchRegistration)> {
    spec_retain(registrations, instances, target, false, true, true, instance_id, wd)
}

/// The registrations with those of closed instances on `target` dropped.
pub open spec fn spec_prune(
    registrations: Seq<(WatchTarget, WatchRegistration)>,
    instances: Seq<InotifyFileView>,
    target: WatchTarget,
) -> Seq<(WatchTarget, WatchRegistration)> {
    spec_retain(registrations, instances, target, false, false, true, 0, 0)
}

/// The registrations with all of those on `target` dropped.
pub open spec fn spec_without_target(
    registrations: Seq<(WatchTarget, WatchRegistration)>,
    target: WatchTarget,
) -> Seq<(WatchTarget, WatchRegistration)> {
    spec_retain(registrations, Seq::empty(), target, true, false, false, 0, 0)
}

/// The state after an event is queued on the instance at `i`; its readers are woken
/// when its queue was empty.
pub open spec fn spec_push_event_at(st: InotifyState, i: int, event: Seq<u8>) -> InotifyState {
    let f = st.instances[i];
    InotifyState {
        instances: st.instances.update(i, InotifyFileView { events: f.events.push(event), ..f }),
        woken: if f.events.len() == 0 {
            st.woken.push(f.instance_id)
        } else {
            st.woken
        },
        ..st
    }
}

/// The state after the instance at `i` drops its watch `wd` on `target` by itself: the
/// watch goes, its registration goes, and `IN_IGNORED` is queued; nothing when the watch
/// is already gone.
pub open spec fn spec_auto_remove(st: InotifyState, i: int, wd: i32, target: WatchTarget) -> InotifyState {
    let f = st.instances[i];
    match watch_of(f.watches, wd) {
        None => st,
        Some(_) => {
            let removed = InotifyState {
                instances: st.instances.update(
                    i,
                    InotifyFileView { watches: without_watch(f.watches, wd), ..f },
                ),
                ..st
            };
            let unregistered = InotifyState {
                registrations: spec_unregister(
                    removed.registrations,
                    removed.instances,
                    target,
                    f.instance_id,
                    wd,
                ),
                ..removed
            };
            spec_push_event_at(
                unregistered,
                i,
                spec_encode_event(wd, IN_IGNORED, 0, Seq::empty()),
            )
        },
    }
}

/// What one registration makes of an event on its node: the event queued on its instance
/// when the watch asks for it, and whether the watch is to go afterwards (one-shot, or
/// the node is going).
pub open spec fn spec_dispatch_one(
    st: InotifyState,
    registration: WatchRegistration,
    target: WatchTarget,
    mask: u32,
    cookie: u32,
    name: Seq<u8>,
    set_isdir: bool,
    remove_watch: bool,
) -> (InotifyState, Option<(int, i32)>) {
    if exists|i: int| is_instance_at(st.instances, registration.instance_id, i) {
        let i = choose|i: int| is_instance_at(st.instances, registration.instance_id, i);
        match watch_of(st.instances[i].watches, registration.wd) {
            None => (st, None),
            Some(watch) => if watch.mask & mask == 0 {
                (
                    if remove_watch {
                        spec_auto_remove(st, i, registration.wd, target)
                    } else {
                        st
                    },
                    None,
                )
            } else {
                let event_mask = if set_isdir {
                    mask | IN_ISDIR
                } else {
                    mask
                };
                (
                    spec_push_event_at(
                        st,
                        i,
                        spec_encode_event(registration.wd, event_mask, cookie, name),
                    ),
                    if remove_watch || watch.mask & IN_ONESHOT != 0 {
                        Some((i, registration.wd))
                    } else {
                        None
                    },
                )
            },
        }
    } else {
        (st, None)
    }
}

/// `spec_dispatch_one` over the registrations in order, collecting the watches to drop.
pub open spec fn spec_dispatch_all(
    st: InotifyState,
    registrations: Seq<WatchRegistration>,
    target: WatchTarget,
    mask: u32,
    cookie: u32,
    name: Seq<u8>,
    set_isdir: bool,
    remove_watch: bool,
) -> (InotifyState, Seq<(int, i32)>)
    decreases registrations.len(),
{
    if registrations.len() == 0 {
        (st, Seq::empty())
    } else {
        let (before, pending) = spec_dispatch_all(
            st,
            registrations.drop_last(),
            target,
            mask,
            cookie,
            name,
            set_isdir,
            remove_watch,
        );
        let (after, drop) = spec_dispatch_one(
            before,
            registrations.last(),
            target,
            mask,
            cookie,
            name,
            set_isdir,
            remove_watch,
        );
        (
            after,
            match drop {
                Some(x) => pending.push(x),
                None => pending,
            },
        )
    }
}

/// `spec_auto_remove` over the watches to drop, in order.
pub open spec fn spec_auto_remove_all(st: InotifyState, pending: Seq<(int, i32)>, target: WatchTarget) -> InotifyState
    decreases pending.len(),
{
    if pending.len() == 0 {
        st
    } else {
        spec_auto_remove(
            spec_auto_remove_all(st, pending.drop_last(), target),
            pending.last().0,
            pending.last().1,
            target,
        )
    }
}

/// An event on `target`: the registrations on it (all of them, taken away, when the node
/// is going; otherwise those of open instances) each get `spec_dispatch_one`, then the
/// watches to drop go.
pub open spec fn spec_dispatch(
    st: InotifyState,
    target: WatchTarget,
    mask: u32,
    cookie: u32,
    name: Seq<u8>,
    set_isdir: bool,
    remove_watch: bool,
) -> InotifyState {
    let start = if remove_watch {
        InotifyState { registrations: spec_without_target(st.registrations, target), ..st }
    } else {
        InotifyState { registrations: spec_prune(st.registrations, st.instances, target), ..st }
    };
    let list = if remove_watch {
        registrations_on(st.registrations, target)
    } else {
        registrations_on(spec_prune(st.registrations, st.instances, target), target)
    };
    let (dispatched, pending) = spec_dispatch_all(
        start,
        list,
        target,
        mask,
        cookie,
        name,
        set_isdir,
        remove_watch,
    );
    spec_auto_remove_all(dispatched, pending, target)
}

/// The live inotify instances and the registrations that find their watches from a node.
pub struct InotifyRegistry {
    instances: Vec<InotifyFile>,
    registrations: Vec<(WatchTarget, WatchRegistration)>,
    next_instance_id: u64,
    next_cookie: u32,
}

impl InotifyRegistry {
    /// The live instances, in the order they were made.
    pub closed spec fn instances(&self) -> Seq<InotifyFileView> {
        self.instances@.map_values(|f: InotifyFile| f@)
    }

    /// The registrations, in the order they were made.
    pub closed spec fn registration_list(&self) -> Seq<(WatchTarget, WatchRegistration)> {
        self.registrations@
    }

    /// The ID the next instance gets.
    pub closed spec fn next_instance_id(&self) -> u64 {
        self.next_instance_id
    }

    /// The counter move cookies come from.
    pub closed spec fn next_cookie(&self) -> u32 {
        self.next_cookie
    }

    /// The registry as a state, with `woken` as the instances to wake.
    pub open spec fn state(&self, woken: Seq<u64>) -> InotifyState {
        InotifyState {
            instances: self.instances(),
            registrations: self.registration_list(),
            woken,
        }
    }

    /// Instance IDs are distinct and below the next one, and every instance's watches are
    /// in order.
    pub open spec fn wf(&self) -> bool {
        &&& forall|i: int, j: int|
            0 <= i < j < self.instances().len() ==> self.instances()[i].instance_id
                != self.instances()[j].instance_id
        &&& forall|i: int|
            0 <= i < self.instances().len() ==> (#[trigger] self.instances()[i]).instance_id
                < self.next_instance_id()
        &&& forall|i: int| 0 <= i < self.instances().len() ==> watches_wf(#[trigger] self.instances()[i])
    }

    /// No instances; IDs and cookies start at 1.
    pub fn new() -> (r: Self)
        ensures
            r.wf(),
            r.instances() == Seq::<InotifyFileView>::empty(),
            r.registration_list() == Seq::<(WatchTarget, WatchRegistration)>::empty(),
            r.next_instance_id() == 1,
            r.next_cookie() == 1,
    {
        let r = InotifyRegistry {
            instances: Vec::new(),
            registrations: Vec::new(),
            next_instance_id: 1,
            next_cookie: 1,
        };
        assert(r.instances() =~= Seq::<InotifyFileView>::empty());
        r
    }

    /// `inotify_init`: a new instance under the next ID.
    pub fn create_inotify_instance(&mut self) -> (r: u64)
        requires
            old(self).wf(),
            old(self).next_instance_id() < u64::MAX,
        ensures
            final(self).wf(),
            r == old(self).next_instance_id(),
            final(self).next_instance_id() == old(self).next_instance_id() + 1,
            final(self).next_cookie() == old(self).next_cookie(),
            final(self).registration_list() == old(self).registration_list(),
            final(self).instances() == old(self).instances().push(
                InotifyFileView {
                    instance_id: r,
                    next_watch_descriptor: 1,
                    watches: Seq::empty(),
                    events: Seq::empty(),
                },
            ),
    {
        let id = self.next_instance_id;
        let instance = InotifyFile::new(id);
        let ghost before = self.instances@;
        self.instances.push(instance);
        self.next_instance_id = id + 1;
        assert(self.instances@.map_values(|f: InotifyFile| f@) =~= before.map_values(
            |f: InotifyFile| f@,
        ).push(instance@));
        let ghost n = self.instances().len() - 1;
        assert(self.instances()[n] == instance@);
        assert forall|i: int, j: int|
            0 <= i < j < self.instances().len() implies self.instances()[i].instance_id
            != self.instances()[j].instance_id by {
            assert(self.instances()[i] == old(self).instances()[i]);
            if j < n {
                assert(self.instances()[j] == old(self).instances()[j]);
            }
        }
        assert forall|i: int| 0 <= i < self.instances().len() implies watches_wf(
            #[trigger] self.instances()[i],
        ) && self.instances()[i].instance_id < self.next_instance_id by {
            if i < n {
                assert(self.instances()[i] == old(self).instances()[i]);
            }
        }
        id
    }

    /// Closes the instance at `at`; its registrations are dropped as they are next met.
    pub fn close_instance(&mut self, at: usize)
        requires
            old(self).wf(),
            at < old(self).instances().len(),
        ensures
            final(self).wf(),
            final(self).instances() == old(self).instances().remove(at as int),
            final(self).registration_list() == old(self).registration_list(),
            final(self).next_instance_id() == old(self).next_instance_id(),
            final(self).next_cookie() == old(self).next_cookie(),
    {
        let ghost before = self.instances@;
        self.instances.remove(at);
        assert(self.instances@.map_values(|f: InotifyFile| f@) =~= before.map_values(
            |f: InotifyFile| f@,
        ).remove(at as int));
        let ghost old_views = before.map_values(|f: InotifyFile| f@);
        assert forall|i: int, j: int|
            0 <= i < j < self.instances().len() implies self.instances()[i].instance_id
            != self.instances()[j].instance_id by {
            let oi = if i < at {
                i
            } else {
                i + 1
            };
            let oj = if j < at {
                j
            } else {
                j + 1
            };
            assert(self.instances()[i] == old(self).instances()[oi]);
            assert(self.instances()[j] == old(self).instances()[oj]);
        }
        assert forall|i: int| 0 <= i < self.instances().len() implies watches_wf(
            #[trigger] self.instances()[i],
        ) && self.instances()[i].instance_id < self.next_instance_id by {
            let oi = if i < at {
                i
            } else {
                i + 1
            };
            assert(self.instances()[i] == old(self).instances()[oi]);
        }
    }

    /// Where the instance with `id` stands, if it is open.
    pub fn find_instance(&self, id: u64) -> (r: Option<usize>)
        ensures
            match r {
                Some(i) => is_instance_at(self.instances(), id, i as int),
                None => !alive(self.instances(), id),
            },
    {
        let mut i: usize = 0;
        while i < self.instances.len()
            invariant
                i <= self.instances.len(),
                forall|j: int| 0 <= j < i ==> (#[trigger] self.instances()[j]).instance_id != id,
            decreases self.instances.len() - i,
        {
            assert(self.instances()[i as int] == self.instances@[i as int]@);
            if self.instances[i].instance_id == id {
                return Some(i);
            }
            i += 1;
        }
        None
    }

    /// The instance at `at`.
    pub fn instance(&self, at: usize) -> (r: &InotifyFile)
        requires
            at < self.instances().len(),
        ensures
            r@ == self.instances()[at as int],
    {
        &self.instances[at]
    }

    /// `read` on the instance at `at`; see `InotifyFile::read`.
    pub fn read(&mut self, at: usize, len: usize) -> (r: Result<Vec<u8>, FsError>)
        requires
            old(self).wf(),
            at < old(self).instances().len(),
        ensures
            final(self).wf(),
            final(self).registration_list() == old(self).registration_list(),
            final(self).next_instance_id() == old(self).next_instance_id(),
            final(self).next_cookie() == old(self).next_cookie(),
            final(self).instances().len() == old(self).instances().len(),
            forall|j: int|
                0 <= j < final(self).instances().len() && j != at ==> #[trigger] final(self).instances()[j] == old(self).instances()[j],
            final(self).instances()[at as int].instance_id == old(self).instances()[at as int].instance_id,
            final(self).instances()[at as int].watches == old(self).instances()[at as int].watches,
            final(self).instances()[at as int].next_watch_descriptor == old(self).instances()[at as int].next_watch_descriptor,
            len == 0 ==> (r matches Ok(bytes) && bytes@.len() == 0),
            len > 0 && old(self).instances()[at as int].events.len() == 0 ==> r == Err::<
                Vec<u8>,
                FsError,
            >(FsError::WouldBlock),
            len > 0 && old(self).instances()[at as int].events.len() > 0 && old(self).instances()[at as int].events[0].len() > len ==> r == Err::<Vec<u8>, FsError>(
                FsError::InvalidInput,
            ),
            len > 0 && old(self).instances()[at as int].events.len() > 0 && old(self).instances()[at as int].events[0].len() <= len ==> {
                let events = old(self).instances()[at as int].events;
                let n = events_fitting(events, len as int) as int;
                &&& r matches Ok(bytes)
                &&& bytes@ == concat_events(events.take(n))
                &&& final(self).instances()[at as int].events == events.skip(n)
            },
    {
        let ghost before = self.instances@;
        assert(self.instances()[at as int] == self.instances@[at as int]@);
        let r = self.instances[at].read(len);
        assert(self.instances@.map_values(|f: InotifyFile| f@) =~= before.map_values(
            |f: InotifyFile| f@,
        ).update(at as int, self.instances@[at as int]@));
        r
    }

    /// Readiness of the instance at `at`; see `InotifyFile::poll`.
    pub fn poll(&self, at: usize, events: u32) -> (r: u32)
        requires
            at < self.instances().len(),
        ensures
            r == if events & POLL_READ != 0 && self.instances()[at as int].events.len() > 0 {
                POLL_READ
            } else {
                0
            },
    {
        assert(self.instances()[at as int] == self.instances@[at as int]@);
        self.instances[at].poll(events)
    }
}

proof fn lemma_instance_at_unique(instances: Seq<InotifyFileView>, id: u64, i: int, j: int)
    requires
        is_instance_at(instances, id, i),
        is_instance_at(instances, id, j),
    ensures
        i == j,
{
    if i < j {
        assert(instances[i].instance_id != id);
    } else if j < i {
        assert(instances[j].instance_id != id);
    }
}

impl InotifyRegistry {
    /// Whether the instance with `id` is open.
    fn instance_alive(&self, id: u64) -> (r: bool)
        ensures
            r == alive(self.instances(), id),
    {
        self.find_instance(id).is_some()
    }

    fn retain_registrations(
        &mut self,
        target: WatchTarget,
        drop_all: bool,
        drop_pair: bool,
        prune: bool,
        instance_id: u64,
        wd: i32,
    )
        ensures
            final(self).registration_list() == spec_retain(
                old(self).registration_list(),
                old(self).instances(),
                target,
                drop_all,
                drop_pair,
                prune,
                instance_id,
                wd,
            ),
            final(self).instances() == old(self).instances(),
            final(self).next_instance_id() == old(self).next_instance_id(),
            final(self).next_cookie() == old(self).next_cookie(),
    {
        let mut kept: Vec<(WatchTarget, WatchRegistration)> = Vec::new();
        let mut i: usize = 0;
        while i < self.registrations.len()
            invariant
                i <= self.registrations.len(),
                self.instances() == old(self).instances(),
                self.registration_list() == old(self).registration_list(),
                self.next_instance_id() == old(self).next_instance_id(),
                self.next_cookie() == old(self).next_cookie(),
                kept@ == spec_retain(
                    self.registrations@.take(i as int),
                    self.instances(),
                    target,
                    drop_all,
                    drop_pair,
                    prune,
                    instance_id,
                    wd,
                ),
            decreases self.registrations.len() - i,
        {
            let p = self.registrations[i];
            assert(self.registrations@.take(i + 1).drop_last() =~= self.registrations@.take(i as int));
            assert(self.registrations@.take(i + 1).last() == p);
            let keep = p.0 != target || (!drop_all && !(drop_pair && p.1.instance_id == instance_id
                && p.1.wd == wd) && (!prune || self.instance_alive(p.1.instance_id)));
            if keep {
                kept.push(p);
            }
            i += 1;
        }
        assert(self.registrations@.take(self.registrations.len() as int) =~= self.registrations@);
        self.registrations = kept;
    }

    /// The registrations on `target`, in order.
    fn collect_registrations(&self, target: WatchTarget) -> (r: Vec<WatchRegistration>)
        ensures
            r@ == registrations_on(self.registration_list(), target),
    {
        let mut found: Vec<WatchRegistration> = Vec::new();
        let mut i: usize = 0;
        while i < self.registrations.len()
            invariant
                i <= self.registrations.len(),
                found@ == registrations_on(self.registrations@.take(i as int), target),
            decreases self.registrations.len() - i,
        {
            let p = self.registrations[i];
            assert(self.registrations@.take(i + 1).drop_last() =~= self.registrations@.take(i as int));
            assert(self.registrations@.take(i + 1).last() == p);
            if p.0 == target {
                found.push(p.1);
            }
            i += 1;
        }
        assert(self.registrations@.take(self.registrations.len() as int) =~= self.registrations@);
        found
    }

    /// Records an instance's watch on `target`.
    pub fn register(&mut self, target: WatchTarget, registration: WatchRegistration)
        ensures
            final(self).registration_list() == old(self).registration_list().push(
                (target, registration),
            ),
            final(self).instances() == old(self).instances(),
            final(self).next_instance_id() == old(self).next_instance_id(),
            final(self).next_cookie() == old(self).next_cookie(),
    {
        self.registrations.push((target, registration));
    }

    /// Drops an instance's watch on `target` from the registry, together with the
    /// registrations of closed instances on `target`; see `spec_unregister`.
    pub fn unregister(&mut self, target: WatchTarget, instance_id: u64, wd: i32)
        ensures
            final(self).registration_list() == spec_unregister(
                old(self).registration_list(),
                old(self).instances(),
                target,
                instance_id,
                wd,
            ),
            final(self).instances() == old(self).instances(),
            final(self).next_instance_id() == old(self).next_instance_id(),
            final(self).next_cookie() == old(self).next_cookie(),
    {
        self.retain_registrations(target, false, true, true, instance_id, wd);
    }

    /// The registrations on `target` of open instances, in order; those of closed ones
    /// are dropped.
    pub fn registrations(&mut self, target: WatchTarget) -> (r: Vec<WatchRegistration>)
        ensures
            final(self).registration_list() == spec_prune(
                old(self).registration_list(),
                old(self).instances(),
                target,
            ),
            r@ == registrations_on(final(self).registration_list(), target),
            final(self).instances() == old(self).instances(),
            final(self).next_instance_id() == old(self).next_instance_id(),
            final(self).next_cookie() == old(self).next_cookie(),
    {
        self.retain_registrations(target, false, false, true, 0, 0);
        self.collect_registrations(target)
    }

    /// Takes all registrations on `target` away and hands them back, in order.
    pub fn remove_target(&mut self, target: WatchTarget) -> (r: Vec<WatchRegistration>)
        ensures
            r@ == registrations_on(old(self).registration_list(), target),
            final(self).registration_list() == spec_without_target(
                old(self).registration_list(),
                target,
            ),
            final(self).instances() == old(self).instances(),
            final(self).next_instance_id() == old(self).next_instance_id(),
            final(self).next_cookie() == old(self).next_cookie(),
    {
        let found = self.collect_registrations(target);
        let ghost regs = self.registration_list();
        self.retain_registrations(target, true, false, false, 0, 0);
        proof {
            lemma_retain_ignores_instances(regs, self.instances(), Seq::empty(), target);
        }
        found
    }

    /// `inotify_add_watch` on the instance at `at`: see `spec_add_watch_entry`; a new
    /// watch is registered on its node.
    pub fn add_watch(&mut self, at: usize, target: WatchTarget, mask: u32) -> (r: Result<i32, FsError>)
        requires
            old(self).wf(),
            at < old(self).instances().len(),
            old(self).instances()[at as int].next_watch_descriptor < i32::MAX,
        ensures
            final(self).wf(),
            final(self).next_instance_id() == old(self).next_instance_id(),
            final(self).next_cookie() == old(self).next_cookie(),
            match spec_add_watch_entry(old(self).instances()[at as int], target, mask) {
                Ok((f, added)) => {
                    &&& r == Ok::<i32, FsError>(added.wd)
                    &&& final(self).instances() == old(self).instances().update(at as int, f)
                    &&& final(self).registration_list() == if added.created {
                        old(self).registration_list().push(
                            (
                                target,
                                WatchRegistration {
                                    instance_id: old(self).instances()[at as int].instance_id,
                                    wd: added.wd,
                                },
                            ),
                        )
                    } else {
                        old(self).registration_list()
                    }
                },
                Err(e) => r == Err::<i32, FsError>(e) && final(self).instances() == old(
                    self,
                ).instances() && final(self).registration_list() == old(self).registration_list(),
            },
    {
        let ghost before = self.instances@;
        assert(self.instances()[at as int] == self.instances@[at as int]@);
        let result = self.instances[at].add_watch_entry(target, mask);
        assert(self.instances@.map_values(|f: InotifyFile| f@) =~= before.map_values(
            |f: InotifyFile| f@,
        ).update(at as int, self.instances@[at as int]@));
        proof {
            self.lemma_wf_after_update(old(self), at as int);
        }
        match result {
            Ok(added) => {
                if added.created {
                    let id = self.instances[at].instance_id;
                    self.register(target, WatchRegistration { instance_id: id, wd: added.wd });
                }
                Ok(added.wd)
            },
            Err(e) => Err(e),
        }
    }

    proof fn lemma_wf_after_update(&self, prior: &Self, at: int)
        requires
            prior.wf(),
            0 <= at < prior.instances().len(),
            self.instances().len() == prior.instances().len(),
            self.next_instance_id() == prior.next_instance_id(),
            forall|j: int| 0 <= j < self.instances().len() && j != at ==> #[trigger] self.instances()[j]
                == prior.instances()[j],
            self.instances()[at].instance_id == prior.instances()[at].instance_id,
            watches_wf(self.instances()[at]),
        ensures
            self.wf(),
    {
        assert forall|i: int, j: int|
            0 <= i < j < self.instances().len() implies self.instances()[i].instance_id
            != self.instances()[j].instance_id by {
            assert(prior.instances()[i].instance_id != prior.instances()[j].instance_id);
        }
        assert forall|i: int| 0 <= i < self.instances().len() implies watches_wf(
            #[trigger] self.instances()[i],
        ) by {
            if i != at {
                assert(self.instances()[i] == prior.instances()[i]);
            }
        }
        assert forall|i: int| 0 <= i < self.instances().len() implies (
        #[trigger] self.instances()[i]).instance_id < self.next_instance_id() by {
            assert(prior.instances()[i].instance_id < prior.next_instance_id());
        }
    }

    /// Queues an event on the instance at `at`, noting it in `woken` when its queue was
    /// empty; see `spec_push_event_at`.
    fn push_event_at(&mut self, at: usize, event: Vec<u8>, woken: &mut Vec<u64>)
        requires
            old(self).wf(),
            at < old(self).instances().len(),
        ensures
            final(self).wf(),
            final(self).state(final(woken)@) == spec_push_event_at(
                old(self).state(old(woken)@),
                at as int,
                event@,
            ),
            final(self).next_instance_id() == old(self).next_instance_id(),
            final(self).next_cookie() == old(self).next_cookie(),
    {
        let ghost before = self.instances@;
        assert(self.instances()[at as int] == self.instances@[at as int]@);
        let id = self.instances[at].instance_id;
        let was_empty = self.instances[at].push_event(event);
        assert(self.instances@.map_values(|f: InotifyFile| f@) =~= before.map_values(
            |f: InotifyFile| f@,
        ).update(at as int, self.instances@[at as int]@));
        if was_empty {
            woken.push(id);
        }
        proof {
            self.lemma_wf_after_update(old(self), at as int);
        }
    }

    /// The instance at `at` drops its watch `wd` on `target` by itself; see
    /// `spec_auto_remove`.
    fn auto_remove_watch(&mut self, at: usize, wd: i32, target: WatchTarget, woken: &mut Vec<u64>)
        requires
            old(self).wf(),
            at < old(self).instances().len(),
        ensures
            final(self).wf(),
            final(self).state(final(woken)@) == spec_auto_remove(
                old(self).state(old(woken)@),
                at as int,
                wd,
                target,
            ),
            final(self).instances().len() == old(self).instances().len(),
            final(self).next_instance_id() == old(self).next_instance_id(),
            final(self).next_cookie() == old(self).next_cookie(),
    {
        let ghost before = self.instances@;
        assert(self.instances()[at as int] == self.instances@[at as int]@);
        let id = self.instances[at].instance_id;
        let removed = self.instances[at].remove_watch_registration(wd);
        assert(self.instances@.map_values(|f: InotifyFile| f@) =~= before.map_values(
            |f: InotifyFile| f@,
        ).update(at as int, self.instances@[at as int]@));
        proof {
            self.lemma_wf_after_update(old(self), at as int);
        }
        if removed.is_ok() {
            self.unregister(target, id, wd);
            let event = encode_event(wd, IN_IGNORED, 0, &[]);
            assert(event@ == spec_encode_event(wd, IN_IGNORED, 0, Seq::empty()));
            self.push_event_at(at, event, woken);
        } else {
            assert(self.instances() =~= old(self).instances());
        }
    }

    /// `inotify_rm_watch` on the instance at `at`: the watch goes, `IN_IGNORED` is
    /// queued, and its registration goes; tells whether readers are to be woken.
    /// `InvalidInput` when there is no such watch.
    pub fn remove_watch(&mut self, at: usize, wd: i32) -> (r: Result<bool, FsError>)
        requires
            old(self).wf(),
            at < old(self).instances().len(),
        ensures
            final(self).wf(),
            final(self).next_instance_id() == old(self).next_instance_id(),
            final(self).next_cookie() == old(self).next_cookie(),
            match watch_of(old(self).instances()[at as int].watches, wd) {
                None => r == Err::<bool, FsError>(FsError::InvalidInput) && final(self).instances()
                    == old(self).instances() && final(self).registration_list() == old(
                    self,
                ).registration_list(),
                Some(w) => {
                    let f = old(self).instances()[at as int];
                    let after = InotifyFileView {
                        watches: without_watch(f.watches, wd),
                        events: f.events.push(spec_encode_event(wd, IN_IGNORED, 0, Seq::empty())),
                        ..f
                    };
                    &&& r == Ok::<bool, FsError>(f.events.len() == 0)
                    &&& final(self).instances() == old(self).instances().update(at as int, after)
                    &&& final(self).registration_list() == spec_unregister(
                        old(self).registration_list(),
                        final(self).instances(),
                        w.target,
                        f.instance_id,
                        wd,
                    )
                },
            },
    {
        let ghost before = self.instances@;
        assert(self.instances()[at as int] == self.instances@[at as int]@);
        let id = self.instances[at].instance_id;
        let target = match self.instances[at].remove_watch_registration(wd) {
            Ok(t) => t,
            Err(e) => {
                assert(self.instances@.map_values(|f: InotifyFile| f@) =~= before.map_values(
                    |f: InotifyFile| f@,
                ));
                return Err(e);
            },
        };
        let event = encode_event(wd, IN_IGNORED, 0, &[]);
        assert(event@ == spec_encode_event(wd, IN_IGNORED, 0, Seq::empty()));
        let wake = self.instances[at].push_event(event);
        assert(self.instances@.map_values(|f: InotifyFile| f@) =~= before.map_values(
            |f: InotifyFile| f@,
        ).update(at as int, self.instances@[at as int]@));
        proof {
            self.lemma_wf_after_update(old(self), at as int);
        }
        self.unregister(target, id, wd);
        Ok(wake)
    }
}

proof fn lemma_retain_ignores_instances(
    registrations: Seq<(WatchTarget, WatchRegistration)>,
    a: Seq<InotifyFileView>,
    b: Seq<InotifyFileView>,
    target: WatchTarget,
)
    ensures
        spec_retain(registrations, a, target, true, false, false, 0, 0) == spec_retain(
            registrations,
            b,
            target,
            true,
            false,
            false,
            0,
            0,
        ),
    decreases registrations.len(),
{
    if registrations.len() > 0 {
        lemma_retain_ignores_instances(registrations.drop_last(), a, b, target);
    }
}

impl InotifyRegistry {
    /// One registration's share of an event; see `spec_dispatch_one`.
    fn dispatch_one(
        &mut self,
        registration: WatchRegistration,
        target: WatchTarget,
        mask: u32,
        cookie: u32,
        name: &[u8],
        set_isdir: bool,
        remove_watch: bool,
        woken: &mut Vec<u64>,
    ) -> (r: Option<(usize, i32)>)
        requires
            old(self).wf(),
            name@.len() + 4 <= u32::MAX,
        ensures
            final(self).wf(),
            final(self).instances().len() == old(self).instances().len(),
            final(self).next_instance_id() == old(self).next_instance_id(),
            final(self).next_cookie() == old(self).next_cookie(),
            r matches Some(x) ==> x.0 < final(self).instances().len(),
            (final(self).state(final(woken)@), match r {
                Some(x) => Some((x.0 as int, x.1)),
                None => None,
            }) == spec_dispatch_one(
                old(self).state(old(woken)@),
                registration,
                target,
                mask,
                cookie,
                name@,
                set_isdir,
                remove_watch,
            ),
    {
        let i = match self.find_instance(registration.instance_id) {
            Some(i) => i,
            None => {
                assert(!exists|k: int| is_instance_at(self.instances(), registration.instance_id, k));
                return None;
            },
        };
        proof {
            assert forall|k: int| is_instance_at(self.instances(), registration.instance_id, k) implies k
                == i by {
                lemma_instance_at_unique(self.instances(), registration.instance_id, i as int, k);
            }
        }
        assert(self.instances()[i as int] == self.instances@[i as int]@);
        let watch = match self.instances[i].watch(registration.wd) {
            Some(w) => w,
            None => return None,
        };
        if watch.mask & mask == 0 {
            if remove_watch {
                self.auto_remove_watch(i, registration.wd, target, woken);
            }
            return None;
        }
        let event_mask = if set_isdir {
            mask | IN_ISDIR
        } else {
            mask
        };
        let event = encode_event(registration.wd, event_mask, cookie, name);
        self.push_event_at(i, event, woken);
        if remove_watch || watch.mask & IN_ONESHOT != 0 {
            Some((i, registration.wd))
        } else {
            None
        }
    }

    /// Delivers an event on `target` to every watch on it; see `spec_dispatch`. The
    /// instances whose readers are to be woken are added to `woken`, in order.
    pub fn dispatch_target_event(
        &mut self,
        target: WatchTarget,
        mask: u32,
        cookie: u32,
        name: &[u8],
        set_isdir: bool,
        remove_watch: bool,
        woken: &mut Vec<u64>,
    )
        requires
            old(self).wf(),
            name@.len() + 4 <= u32::MAX,
        ensures
            final(self).wf(),
            final(self).next_instance_id() == old(self).next_instance_id(),
            final(self).next_cookie() == old(self).next_cookie(),
            final(self).state(final(woken)@) == spec_dispatch(
                old(self).state(old(woken)@),
                target,
                mask,
                cookie,
                name@,
                set_isdir,
                remove_watch,
            ),
    {
        let ghost st = self.state(woken@);
        let registrations = if remove_watch {
            self.remove_target(target)
        } else {
            self.registrations(target)
        };
        proof {
            if remove_watch {
                lemma_retain_ignores_instances(st.registrations, st.instances, Seq::empty(), target);
            }
        }
        let ghost start = self.state(woken@);
        assert(start == if remove_watch {
            InotifyState { registrations: spec_without_target(st.registrations, target), ..st }
        } else {
            InotifyState { registrations: spec_prune(st.registrations, st.instances, target), ..st }
        });
        let mut pending: Vec<(usize, i32)> = Vec::new();
        let mut k: usize = 0;
        while k < registrations.len()
            invariant
                k <= registrations.len(),
                self.wf(),
                name@.len() + 4 <= u32::MAX,
                self.instances().len() == start.instances.len(),
                self.next_instance_id() == old(self).next_instance_id(),
                self.next_cookie() == old(self).next_cookie(),
                forall|j: int| 0 <= j < pending@.len() ==> (#[trigger] pending@[j]).0 < self.instances().len(),
                (self.state(woken@), pending@.map_values(|x: (usize, i32)| (x.0 as int, x.1)))
                    == spec_dispatch_all(
                    start,
                    registrations@.take(k as int),
                    target,
                    mask,
                    cookie,
                    name@,
                    set_isdir,
                    remove_watch,
                ),
            decreases registrations.len() - k,
        {
            let registration = registrations[k];
            assert(registrations@.take(k + 1).drop_last() =~= registrations@.take(k as int));
            assert(registrations@.take(k + 1).last() == registration);
            let ghost before = pending@;
            let dropped = self.dispatch_one(
                registration,
                target,
                mask,
                cookie,
                name,
                set_isdir,
                remove_watch,
                woken,
            );
            match dropped {
                Some(x) => {
                    pending.push(x);
                    assert(pending@.map_values(|y: (usize, i32)| (y.0 as int, y.1)) =~= before.map_values(
                        |y: (usize, i32)| (y.0 as int, y.1),
                    ).push((x.0 as int, x.1)));
                },
                None => {},
            }
            k += 1;
        }
        assert(registrations@.take(registrations.len() as int) =~= registrations@);
        let ghost pending_view = pending@.map_values(|x: (usize, i32)| (x.0 as int, x.1));
        let ghost dispatched = self.state(woken@);
        let mut j: usize = 0;
        while j < pending.len()
            invariant
                j <= pending.len(),
                self.wf(),
                self.instances().len() == start.instances.len(),
                self.next_instance_id() == old(self).next_instance_id(),
                self.next_cookie() == old(self).next_cookie(),
                pending_view == pending@.map_values(|x: (usize, i32)| (x.0 as int, x.1)),
                forall|m: int| 0 <= m < pending@.len() ==> (#[trigger] pending@[m]).0 < self.instances().len(),
                self.state(woken@) == spec_auto_remove_all(dispatched, pending_view.take(j as int), target),
            decreases pending.len() - j,
        {
            let (at, wd) = pending[j];
            assert(pending_view.take(j + 1).drop_last() =~= pending_view.take(j as int));
            assert(pending_view.take(j + 1).last() == (at as int, wd));
            self.auto_remove_watch(at, wd, target, woken);
            j += 1;
        }
        assert(pending_view.take(pending.len() as int) =~= pending_view);
    }

    /// A node's attributes changed.
    pub fn notify_attrib(&mut self, node: WatchTarget) -> (r: Vec<u64>)
        requires
            old(self).wf(),
        ensures
            final(self).wf(),
            final(self).next_instance_id() == old(self).next_instance_id(),
            final(self).next_cookie() == old(self).next_cookie(),
            final(self).state(r@) == spec_dispatch(
                old(self).state(Seq::empty()),
                node,
                IN_ATTRIB,
                0,
                Seq::empty(),
                false,
                false,
            ),
    {
        let mut woken: Vec<u64> = Vec::new();
        let no_name: [u8; 0] = [];
        assert(no_name@ =~= Seq::<u8>::empty());
        self.dispatch_target_event(node, IN_ATTRIB, 0, &no_name, false, false, &mut woken);
        woken
    }

    /// `name` was created in `parent`.
    pub fn notify_create(&mut self, parent: WatchTarget, child_is_dir: bool, name: &[u8]) -> (r: Vec<u64>)
        requires
            old(self).wf(),
            name@.len() + 4 <= u32::MAX,
        ensures
            final(self).wf(),
            final(self).next_instance_id() == old(self).next_instance_id(),
            final(self).next_cookie() == old(self).next_cookie(),
            final(self).state(r@) == spec_dispatch(
                old(self).state(Seq::empty()),
                parent,
                IN_CREATE,
                0,
                name@,
                child_is_dir,
                false,
            ),
    {
        let mut woken: Vec<u64> = Vec::new();
        self.dispatch_target_event(parent, IN_CREATE, 0, name, child_is_dir, false, &mut woken);
        woken
    }

    /// `name` was deleted from `parent`: `IN_DELETE` on the parent, then `IN_DELETE_SELF`
    /// on the node, and every watch on either goes.
    pub fn notify_delete(
        &mut self,
        parent: WatchTarget,
        child: WatchTarget,
        child_is_dir: bool,
        name: &[u8],
    ) -> (r: Vec<u64>)
        requires
            old(self).wf(),
            name@.len() + 4 <= u32::MAX,
        ensures
            final(self).wf(),
            final(self).next_instance_id() == old(self).next_instance_id(),
            final(self).next_cookie() == old(self).next_cookie(),
            final(self).state(r@) == spec_dispatch(
                spec_dispatch(
                    old(self).state(Seq::empty()),
                    parent,
                    IN_DELETE,
                    0,
                    name@,
                    child_is_dir,
                    true,
                ),
                child,
                IN_DELETE_SELF,
                0,
                Seq::empty(),
                false,
                true,
            ),
    {
        let mut woken: Vec<u64> = Vec::new();
        self.dispatch_target_event(parent, IN_DELETE, 0, name, child_is_dir, true, &mut woken);
        let no_name: [u8; 0] = [];
        assert(no_name@ =~= Seq::<u8>::empty());
        self.dispatch_target_event(child, IN_DELETE_SELF, 0, &no_name, false, true, &mut woken);
        woken
    }

    /// `node` moved from `old_name` in `old_parent` to `new_name` in `new_parent`: both
    /// parents get the event with one fresh cookie, then the node gets `IN_MOVE_SELF`.
    pub fn notify_move(
        &mut self,
        old_parent: WatchTarget,
        new_parent: WatchTarget,
        node: WatchTarget,
        is_dir: bool,
        old_name: &[u8],
        new_name: &[u8],
    ) -> (r: Vec<u64>)
        requires
            old(self).wf(),
            old_name@.len() + 4 <= u32::MAX,
            new_name@.len() + 4 <= u32::MAX,
        ensures
            final(self).wf(),
            final(self).next_instance_id() == old(self).next_instance_id(),
            final(self).next_cookie() == next_cookie_after(old(self).next_cookie()),
            final(self).state(r@) == spec_dispatch(
                spec_dispatch(
                    spec_dispatch(
                        old(self).state(Seq::empty()),
                        old_parent,
                        IN_MOVED_FROM,
                        next_cookie_after(old(self).next_cookie()),
                        old_name@,
                        is_dir,
                        false,
                    ),
                    new_parent,
                    IN_MOVED_TO,
                    next_cookie_after(old(self).next_cookie()),
                    new_name@,
                    is_dir,
                    false,
                ),
                node,
                IN_MOVE_SELF,
                0,
                Seq::empty(),
                false,
                false,
            ),
    {
        let cookie = self.next_cookie.wrapping_add(1);
        self.next_cookie = cookie;
        assert(self.instances() == old(self).instances());
        assert(self.state(Seq::empty()) == old(self).state(Seq::empty()));
        let mut woken: Vec<u64> = Vec::new();
        self.dispatch_target_event(old_parent, IN_MOVED_FROM, cookie, old_name, is_dir, false, &mut woken);
        self.dispatch_target_event(new_parent, IN_MOVED_TO, cookie, new_name, is_dir, false, &mut woken);
        let no_name: [u8; 0] = [];
        assert(no_name@ =~= Seq::<u8>::empty());
        self.dispatch_target_event(node, IN_MOVE_SELF, 0, &no_name, false, false, &mut woken);
        woken
    }
}

/// The cookie a move event gets, and the counter's next value: the counter plus one,
/// wrapping.
pub open spec fn next_cookie_after(counter: u32) -> u32 {
    if counter == u32::MAX {
        0
    } else {
        (counter + 1) as u32
    }
}


/// Watching a node that is already watched gives back the same descriptor, and no new
/// watch.
pub proof fn lemma_add_watch_same_descriptor(f: InotifyFileView, target: WatchTarget, first: u32, second: u32)
    requires
        spec_add_watch_entry(f, target, first) is Ok,
        second & IN_MASK_CREATE == 0,
    ensures
        ({
            let (f1, a1) = spec_add_watch_entry(f, target, first)->Ok_0;
            &&& spec_add_watch_entry(f1, target, second) is Ok
            &&& spec_add_watch_entry(f1, target, second)->Ok_0.1 == AddedWatch {
                wd: a1.wd,
                created: false,
            }
        }),
{
    let (f1, a1) = spec_add_watch_entry(f, target, first)->Ok_0;
    if exists|i: int| is_first_watch_on(f.watches, target, i) {
        let i = choose|i: int| is_first_watch_on(f.watches, target, i);
        assert(is_first_watch_on(f1.watches, target, i));
        assert forall|k: int| is_first_watch_on(f1.watches, target, k) implies k == i by {
            if k < i {
                assert(f1.watches[k] == f.watches[k]);
            } else if i < k {
                assert(f1.watches[i].1.target == target);
            }
        }
    } else {
        let n = f.watches.len() as int;
        assert(f1.watches[n].1.target == target);
        assert forall|j: int| 0 <= j < n implies (#[trigger] f1.watches[j]).1.target != target by {
            assert(f1.watches[j] == f.watches[j]);
            if f.watches[j].1.target == target {
                lemma_first_watch_exists(f.watches, target, j);
            }
        }
        assert(is_first_watch_on(f1.watches, target, n));
        assert forall|k: int| is_first_watch_on(f1.watches, target, k) implies k == n by {
            if k < n {
                assert(f1.watches[k].1.target != target);
            }
        }
    }
}


proof fn lemma_first_watch_exists(watches: Seq<(i32, InotifyWatch)>, target: WatchTarget, j: int)
    requires
        0 <= j < watches.len(),
        watches[j].1.target == target,
    ensures
        exists|i: int| is_first_watch_on(watches, target, i),
    decreases j,
{
    if forall|q: int| 0 <= q < j ==> (#[trigger] watches[q]).1.target != target {
        assert(is_first_watch_on(watches, target, j));
    } else {
        let q = choose|q: int| 0 <= q < j && (#[trigger] watches[q]).1.target == target;
        lemma_first_watch_exists(watches, target, q);
    }
}

} // verus!
