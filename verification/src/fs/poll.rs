//! The readiness events that `poll` asks about and reports, as a bit mask.
use vstd::prelude::*;

use crate::errno::SysErr;
use crate::wire::{
    i32_le, le_i32_at, le_u16_at, lemma_i32_roundtrip, lemma_u16_roundtrip, push_i32, push_u16,
    read_i32_at, read_u16_at, u16_le,
};

verus! {

/// Data can be read.
pub const POLL_READ: u32 = 0x1;
/// Data can be written.
pub const POLL_WRITE: u32 = 0x4;
/// An error is pending.
pub const POLL_ERROR: u32 = 0x8;
/// The other end hung up.
pub const POLL_HUP: u32 = 0x10;

/// `event` when `ready` holds and `requested` asks for it, else nothing.
pub open spec fn event_if(requested: u32, event: u32, ready: bool) -> u32 {
    if ready && requested & event != 0 {
        event
    } else {
        0
    }
}

/// `event` when `ready` holds and `requested` asks for it, else nothing.
pub fn ready_if(requested: u32, event: u32, ready: bool) -> (r: u32)
    ensures
        r == event_if(requested, event, ready),
{
    if ready && (requested & event) != 0 {
        event
    } else {
        0
    }
}

/// The descriptor is not open.
pub const POLL_INVALID: u32 = 0x20;
/// The peer shut down its writing side.
pub const POLL_RDHUP: u32 = 0x2000;

pub const POLLIN: i16 = 0x001;
pub const POLLPRI: i16 = 0x002;
pub const POLLOUT: i16 = 0x004;
pub const POLLERR: i16 = 0x008;
pub const POLLHUP: i16 = 0x010;
pub const POLLNVAL: i16 = 0x020;
pub const POLLRDHUP: i16 = 0x2000;
pub const POLLRDNORM: i16 = 0x040;
pub const POLLRDBAND: i16 = 0x080;
pub const POLLWRNORM: i16 = 0x100;
pub const POLLWRBAND: i16 = 0x200;

/// The events a `pollfd` asks for: any input bit asks for reading, any output bit for
/// writing, and the error, hang-up, invalid and peer-shutdown bits for themselves.
pub open spec fn spec_linux_poll_to_events(events: i16) -> u32 {
    (if events & (POLLIN | POLLPRI | POLLRDNORM | POLLRDBAND) != 0 {
        POLL_READ
    } else {
        0
    }) | (if events & (POLLOUT | POLLWRNORM | POLLWRBAND) != 0 {
        POLL_WRITE
    } else {
        0
    }) | (if events & POLLERR != 0 {
        POLL_ERROR
    } else {
        0
    }) | (if events & POLLHUP != 0 {
        POLL_HUP
    } else {
        0
    }) | (if events & POLLNVAL != 0 {
        POLL_INVALID
    } else {
        0
    }) | (if events & POLLRDHUP != 0 {
        POLL_RDHUP
    } else {
        0
    })
}

/// The events a `pollfd` asks for; see `spec_linux_poll_to_events`.
pub fn linux_poll_to_events(events: i16) -> (r: u32)
    ensures
        r == spec_linux_poll_to_events(events),
{
    (if events & (POLLIN | POLLPRI | POLLRDNORM | POLLRDBAND) != 0 {
        POLL_READ
    } else {
        0
    }) | (if events & (POLLOUT | POLLWRNORM | POLLWRBAND) != 0 {
        POLL_WRITE
    } else {
        0
    }) | (if events & POLLERR != 0 {
        POLL_ERROR
    } else {
        0
    }) | (if events & POLLHUP != 0 {
        POLL_HUP
    } else {
        0
    }) | (if events & POLLNVAL != 0 {
        POLL_INVALID
    } else {
        0
    }) | (if events & POLLRDHUP != 0 {
        POLL_RDHUP
    } else {
        0
    })
}

/// The `revents` of ready events.
pub open spec fn spec_events_to_linux_poll(events: u32) -> i16 {
    (if events & POLL_READ != 0 {
        POLLIN
    } else {
        0
    }) | (if events & POLL_WRITE != 0 {
        POLLOUT
    } else {
        0
    }) | (if events & POLL_ERROR != 0 {
        POLLERR
    } else {
        0
    }) | (if events & POLL_HUP != 0 {
        POLLHUP
    } else {
        0
    }) | (if events & POLL_INVALID != 0 {
        POLLNVAL
    } else {
        0
    }) | (if events & POLL_RDHUP != 0 {
        POLLRDHUP
    } else {
        0
    })
}

/// Each `revents` bit is set exactly when its event is ready: `POLLIN` (0x001) for
/// `POLL_READ` (0x1), `POLLOUT` (0x004) for `POLL_WRITE` (0x4), `POLLERR` (0x008) for
/// `POLL_ERROR` (0x8), `POLLHUP` (0x010) for `POLL_HUP` (0x10), `POLLNVAL` (0x020) for
/// `POLL_INVALID` (0x20) and `POLLRDHUP` (0x2000) for `POLL_RDHUP` (0x2000); no other bit
/// is ever set.
pub proof fn lemma_revents_bits(events: u32)
    ensures
        (spec_events_to_linux_poll(events) & 0x001 != 0) <==> (events & 0x1 != 0),
        (spec_events_to_linux_poll(events) & 0x004 != 0) <==> (events & 0x4 != 0),
        (spec_events_to_linux_poll(events) & 0x008 != 0) <==> (events & 0x8 != 0),
        (spec_events_to_linux_poll(events) & 0x010 != 0) <==> (events & 0x10 != 0),
        (spec_events_to_linux_poll(events) & 0x020 != 0) <==> (events & 0x20 != 0),
        (spec_events_to_linux_poll(events) & 0x2000 != 0) <==> (events & 0x2000 != 0),
        spec_events_to_linux_poll(events) & !0x203di16 == 0,
{
    let r = spec_events_to_linux_poll(events);
    assert(((r & 0x001 != 0) <==> (events & 0x1 != 0)) && ((r & 0x004 != 0) <==> (events & 0x4 != 0)) && ((r
        & 0x008 != 0) <==> (events & 0x8 != 0)) && ((r & 0x010 != 0) <==> (events & 0x10 != 0)) && ((r & 0x020
        != 0) <==> (events & 0x20 != 0)) && ((r & 0x2000 != 0) <==> (events & 0x2000 != 0)) && r & !0x203di16
        == 0) by (bit_vector)
        requires
            r == spec_events_to_linux_poll(events),
    ;
}

/// The `revents` of ready events.
pub fn events_to_linux_poll(events: u32) -> (r: i16)
    ensures
        r == spec_events_to_linux_poll(events),
{
    (if events & POLL_READ != 0 {
        POLLIN
    } else {
        0
    }) | (if events & POLL_WRITE != 0 {
        POLLOUT
    } else {
        0
    }) | (if events & POLL_ERROR != 0 {
        POLLERR
    } else {
        0
    }) | (if events & POLL_HUP != 0 {
        POLLHUP
    } else {
        0
    }) | (if events & POLL_INVALID != 0 {
        POLLNVAL
    } else {
        0
    }) | (if events & POLL_RDHUP != 0 {
        POLLRDHUP
    } else {
        0
    })
}

/// The events that make a descriptor readable and writable for `select` even when not
/// asked for.
pub const SELECT_EXCEPTIONAL: u32 = POLL_ERROR | POLL_HUP | POLL_RDHUP | POLL_INVALID;

/// Whether `select` reports a descriptor readable and writable, given what it waits for
/// and what its file reports: the event itself, or any exceptional event.
pub open spec fn spec_select_ready(want_read: bool, want_write: bool, ready: u32) -> (bool, bool) {
    (
        want_read && (ready & POLL_READ != 0 || ready & SELECT_EXCEPTIONAL != 0),
        want_write && (ready & POLL_WRITE != 0 || ready & SELECT_EXCEPTIONAL != 0),
    )
}

/// Whether `select` reports a descriptor readable and writable; see `spec_select_ready`.
pub fn select_ready(want_read: bool, want_write: bool, ready: u32) -> (r: (bool, bool))
    ensures
        r == spec_select_ready(want_read, want_write, ready),
{
    (
        want_read && ((ready & POLL_READ) != 0 || (ready & SELECT_EXCEPTIONAL) != 0),
        want_write && ((ready & POLL_WRITE) != 0 || (ready & SELECT_EXCEPTIONAL) != 0),
    )
}

/// How many bytes an `fd_set` of `nfds` descriptors takes.
pub fn fd_set_bytes_len(nfds: usize) -> (r: usize)
    ensures
        r == nfds / 8 + if nfds % 8 != 0 {
            1int
        } else {
            0int
        },
{
    nfds / 8 + if nfds % 8 != 0 {
        1
    } else {
        0
    }
}

/// The bit of descriptor `fd` in an `fd_set`.
pub open spec fn fd_bit(fd: usize) -> u8 {
    (1u8 << ((fd % 8) as u8)) as u8
}

/// Whether descriptor `fd` is in the `fd_set` `bits`; never beyond its bytes.
pub open spec fn spec_fd_set_test(bits: Seq<u8>, fd: usize) -> bool {
    fd / 8 < bits.len() && bits[(fd / 8) as int] & fd_bit(fd) != 0
}

/// Whether descriptor `fd` is in the `fd_set` `bits`.
pub fn fd_set_test(bits: &[u8], fd: usize) -> (r: bool)
    ensures
        r == spec_fd_set_test(bits@, fd),
{
    let index = fd / 8;
    if index >= bits.len() {
        return false;
    }
    let shift = (fd % 8) as u8;
    (bits[index] & (1u8 << shift)) != 0
}

/// Puts descriptor `fd` in the `fd_set` `bits` or takes it out; nothing beyond its bytes.
pub fn fd_set_assign(bits: &mut Vec<u8>, fd: usize, value: bool)
    ensures
        fd / 8 >= old(bits)@.len() ==> final(bits)@ == old(bits)@,
        fd / 8 < old(bits)@.len() ==> final(bits)@ == old(bits)@.update(
            (fd / 8) as int,
            if value {
                old(bits)@[(fd / 8) as int] | fd_bit(fd)
            } else {
                old(bits)@[(fd / 8) as int] & !fd_bit(fd)
            },
        ),
{
    let index = fd / 8;
    if index >= bits.len() {
        return;
    }
    let shift = (fd % 8) as u8;
    let mask = 1u8 << shift;
    let byte = bits[index];
    let updated = if value {
        byte | mask
    } else {
        byte & !mask
    };
    bits.set(index, updated);
}

proof fn lemma_bit_or(b: u8, s: u8, t: u8)
    requires
        s < 8,
        t < 8,
    ensures
        ((b | (1u8 << s)) & (1u8 << t) != 0) == (s == t || b & (1u8 << t) != 0),
        ((b & !(1u8 << s)) & (1u8 << t) != 0) == (s != t && b & (1u8 << t) != 0),
{
    assert(((b | (1u8 << s)) & (1u8 << t) != 0) == (s == t || b & (1u8 << t) != 0)) by (bit_vector)
        requires
            s < 8,
            t < 8,
    ;
    assert(((b & !(1u8 << s)) & (1u8 << t) != 0) == (s != t && b & (1u8 << t) != 0)) by (bit_vector)
        requires
            s < 8,
            t < 8,
    ;
}

/// Putting `fd` in (or out of) a set changes whether `fd` is in it, and nothing else.
pub proof fn lemma_fd_set_assign(bits: Seq<u8>, fd: usize, value: bool, g: usize)
    requires
        fd / 8 < bits.len(),
    ensures
        ({
            let nb = bits.update(
                (fd / 8) as int,
                if value {
                    bits[(fd / 8) as int] | fd_bit(fd)
                } else {
                    bits[(fd / 8) as int] & !fd_bit(fd)
                },
            );
            spec_fd_set_test(nb, g) == if g == fd {
                value
            } else {
                spec_fd_set_test(bits, g)
            }
        }),
{
    if g / 8 == fd / 8 {
        let s = (fd % 8) as u8;
        let t = (g % 8) as u8;
        lemma_bit_or(bits[(fd / 8) as int], s, t);
        if g != fd {
            assert(g % 8 != fd % 8) by (nonlinear_arith)
                requires
                    g / 8 == fd / 8,
                    g != fd,
            ;
        }
    }
}

/// One `pollfd`: descriptor, asked events, reported events.
#[derive(Debug, Clone, Copy, PartialEq, Eq, Structural)]
pub struct LinuxPollFd {
    pub fd: i32,
    pub events: i16,
    pub revents: i16,
}

/// The bytes of a `pollfd`.
pub open spec fn pollfd_bytes(p: LinuxPollFd) -> Seq<u8> {
    i32_le(p.fd) + u16_le(p.events as u16) + u16_le(p.revents as u16)
}

impl LinuxPollFd {
    /// The `pollfd` in the first 8 bytes.
    pub fn from_bytes(bytes: &[u8]) -> (r: Self)
        requires
            bytes@.len() >= 8,
        ensures
            r == (LinuxPollFd {
                fd: le_i32_at(bytes@, 0),
                events: le_u16_at(bytes@, 4) as i16,
                revents: le_u16_at(bytes@, 6) as i16,
            }),
    {
        LinuxPollFd {
            fd: read_i32_at(bytes, 0),
            events: read_u16_at(bytes, 4) as i16,
            revents: read_u16_at(bytes, 6) as i16,
        }
    }

    /// The 8 bytes of the `pollfd`.
    pub fn to_bytes(self) -> (r: Vec<u8>)
        ensures
            r@ == pollfd_bytes(self),
    {
        let mut out: Vec<u8> = Vec::new();
        push_i32(&mut out, self.fd);
        push_u16(&mut out, self.events as u16);
        push_u16(&mut out, self.revents as u16);
        assert(out@ =~= pollfd_bytes(self));
        out
    }
}

/// What polling a descriptor's file reported: its ready events, or the error the poll
/// failed with. A descriptor that is not open has no probe (`None`).
pub open spec fn probe_ready(probe: Option<Result<u32, SysErr>>) -> u32 {
    match probe {
        Some(Ok(ready)) => ready,
        _ => 0,
    }
}

/// What `poll` reports for a descriptor: nothing for a negative one, `POLLNVAL` when it
/// is not open, else what its file reports (`probe`).
pub open spec fn spec_poll_revents(fd: i32, probe: Option<Result<u32, SysErr>>) -> i16 {
    if fd < 0 {
        0
    } else {
        match probe {
            None => POLLNVAL,
            Some(Ok(ready)) => spec_events_to_linux_poll(ready),
            Some(Err(_)) => 0,
        }
    }
}

/// Whether polling the file of `pollfd` entry `fd` failed (a negative descriptor is not
/// polled).
pub open spec fn poll_fails(fd: i32, probe: Option<Result<u32, SysErr>>) -> bool {
    fd >= 0 && probe matches Some(Err(_))
}

/// How many entries report something.
pub open spec fn count_reporting(ps: Seq<LinuxPollFd>) -> nat
    decreases ps.len(),
{
    if ps.len() == 0 {
        0
    } else {
        count_reporting(ps.drop_last()) + if ps.last().revents != 0 {
            1nat
        } else {
            0nat
        }
    }
}

/// The entry `p` with `revents` filled in from its probe.
pub open spec fn polled(p: LinuxPollFd, probe: Option<Result<u32, SysErr>>) -> LinuxPollFd {
    LinuxPollFd { revents: spec_poll_revents(p.fd, probe), ..p }
}

/// Fills in `revents` of each `pollfd`, in order, from what its descriptor reports
/// (`probes`, in the same order: `None` for a descriptor that is not open), and counts
/// those that report something. The first entry whose file fails to poll ends it with that
/// error: the entries before it are filled in, its `revents` is cleared and the entries
/// after it are left as they were.
pub fn evaluate_poll_fds(poll_fds: &mut Vec<LinuxPollFd>, probes: &Vec<Option<Result<u32, SysErr>>>) -> (r: Result<
    usize,
    SysErr,
>)
    requires
        old(poll_fds)@.len() == probes@.len(),
    ensures
        final(poll_fds)@.len() == old(poll_fds)@.len(),
        (forall|i: int| 0 <= i < probes@.len() ==> !poll_fails(old(poll_fds)@[i].fd, #[trigger] probes@[i]))
            <==> r is Ok,
        r is Ok ==> {
            &&& forall|i: int|
                0 <= i < final(poll_fds)@.len() ==> #[trigger] final(poll_fds)@[i] == polled(
                    old(poll_fds)@[i],
                    probes@[i],
                )
            &&& r->Ok_0 == count_reporting(final(poll_fds)@)
        },
        r matches Err(e) ==> exists|k: int|
            0 <= k < probes@.len() && #[trigger] probes@[k] == Some(Err::<u32, SysErr>(e)) && old(
                poll_fds,
            )@[k].fd >= 0 && (forall|j: int| 0 <= j < k ==> !poll_fails(old(poll_fds)@[j].fd, #[trigger] probes@[j]))
                && (forall|j: int| 0 <= j < k ==> #[trigger] final(poll_fds)@[j] == polled(old(poll_fds)@[j], probes@[j]))
                && final(poll_fds)@[k] == (LinuxPollFd { revents: 0, ..old(poll_fds)@[k] })
                && (forall|j: int| k < j < probes@.len() ==> #[trigger] final(poll_fds)@[j] == old(poll_fds)@[j]),
{
    let ghost start = poll_fds@;
    let mut count: usize = 0;
    let mut i: usize = 0;
    while i < poll_fds.len()
        invariant
            poll_fds@.len() == start.len(),
            start == old(poll_fds)@,
            start.len() == probes@.len(),
            i <= start.len(),
            count <= i,
            forall|j: int| 0 <= j < i ==> !poll_fails(start[j].fd, #[trigger] probes@[j]),
            forall|j: int| 0 <= j < i ==> #[trigger] poll_fds@[j] == polled(start[j], probes@[j]),
            forall|j: int| i <= j < start.len() ==> #[trigger] poll_fds@[j] == start[j],
            count == count_reporting(poll_fds@.take(i as int)),
        decreases start.len() - i,
    {
        let p = poll_fds[i];
        let revents: i16 = if p.fd < 0 {
            0
        } else {
            match probes[i] {
                None => POLLNVAL,
                Some(Ok(ready)) => events_to_linux_poll(ready),
                Some(Err(e)) => {
                    let cleared = LinuxPollFd { revents: 0, ..p };
                    poll_fds.set(i, cleared);
                    proof {
                        assert(probes@[i as int] == Some(Err::<u32, SysErr>(e)));
                        assert(poll_fails(start[i as int].fd, probes@[i as int]));
                        assert(poll_fds@[i as int] == (LinuxPollFd { revents: 0, ..start[i as int] }));
                    }
                    return Err(e);
                },
            }
        };
        let updated = LinuxPollFd { revents, ..p };
        let ghost before = poll_fds@;
        poll_fds.set(i, updated);
        proof {
            assert(!poll_fails(start[i as int].fd, probes@[i as int]));
            assert(poll_fds@.take(i as int) =~= before.take(i as int));
            assert(poll_fds@.take(i + 1).drop_last() =~= poll_fds@.take(i as int));
            assert(poll_fds@.take(i + 1).last() == updated);
        }
        if revents != 0 {
            count = count + 1;
        }
        i = i + 1;
    }
    assert(poll_fds@.take(poll_fds@.len() as int) =~= poll_fds@);
    Ok(count)
}

/// Whether `select` waits for anything on descriptor `fd`.
pub open spec fn wants_any(read_set: Seq<u8>, write_set: Seq<u8>, except_set: Seq<u8>, fd: usize) -> bool {
    spec_fd_set_test(read_set, fd) || spec_fd_set_test(write_set, fd) || spec_fd_set_test(
        except_set,
        fd,
    )
}

/// How many of the descriptors below `n` that `select` waits for are ready for something
/// it waits for, by what they report (`probes`).
pub open spec fn count_ready(
    read_set: Seq<u8>,
    write_set: Seq<u8>,
    except_set: Seq<u8>,
    probes: Seq<Option<Result<u32, SysErr>>>,
    n: nat,
) -> nat
    decreases n,
{
    if n == 0 {
        0
    } else {
        let fd = (n - 1) as usize;
        let ready = spec_select_ready(
            spec_fd_set_test(read_set, fd),
            spec_fd_set_test(write_set, fd),
            probe_ready(probes[n - 1]),
        );
        count_ready(read_set, write_set, except_set, probes, (n - 1) as nat) + if wants_any(
            read_set,
            write_set,
            except_set,
            fd,
        ) && probes[n - 1] is Some && probes[n - 1]->0 is Ok && (ready.0 || ready.1) {
            1nat
        } else {
            0nat
        }
    }
}

/// The error `select` meets at descriptor `fd`: `BadFd` when it waits for something on a
/// descriptor that is not open, the poll's error when polling its file fails, none
/// otherwise.
pub open spec fn select_error(
    read_set: Seq<u8>,
    write_set: Seq<u8>,
    except_set: Seq<u8>,
    probes: Seq<Option<Result<u32, SysErr>>>,
    fd: usize,
) -> Option<SysErr> {
    if wants_any(read_set, write_set, except_set, fd) {
        match probes[fd as int] {
            None => Some(SysErr::BadFd),
            Some(Err(e)) => Some(e),
            Some(Ok(_)) => None,
        }
    } else {
        None
    }
}

/// Evaluates the `select` sets for descriptors below `nfds` from what each descriptor
/// reports (`probes[fd]`, `None` when it is not open): each set keeps a descriptor only
/// where it is ready, the exceptional set is emptied, and the count of ready descriptors
/// is returned. The first descriptor, in order, that is waited for but not open
/// (`BadFd`) or whose file fails to poll (that error) ends it with that error.
pub fn evaluate_select_fd_sets(
    nfds: usize,
    read_set: &mut Vec<u8>,
    write_set: &mut Vec<u8>,
    except_set: &mut Vec<u8>,
    probes: &Vec<Option<Result<u32, SysErr>>>,
) -> (r: Result<usize, SysErr>)
    requires
        probes@.len() >= nfds,
    ensures
        (forall|fd: usize|
            fd < nfds ==> #[trigger] select_error(old(read_set)@, old(write_set)@, old(except_set)@, probes@, fd)
                is None) <==> r is Ok,
        r matches Err(e) ==> exists|fd: usize|
            fd < nfds && #[trigger] select_error(old(read_set)@, old(write_set)@, old(except_set)@, probes@, fd)
                == Some(e) && forall|g: usize|
                g < fd ==> #[trigger] select_error(old(read_set)@, old(write_set)@, old(except_set)@, probes@, g)
                    is None,
        r is Ok ==> {
            &&& final(read_set)@.len() == old(read_set)@.len()
            &&& final(write_set)@.len() == old(write_set)@.len()
            &&& final(except_set)@.len() == old(except_set)@.len()
            &&& forall|fd: usize| #[trigger]
                spec_fd_set_test(final(read_set)@, fd) == if fd < nfds && wants_any(
                    old(read_set)@,
                    old(write_set)@,
                    old(except_set)@,
                    fd,
                ) {
                    spec_select_ready(
                        spec_fd_set_test(old(read_set)@, fd),
                        spec_fd_set_test(old(write_set)@, fd),
                        probe_ready(probes@[fd as int]),
                    ).0
                } else {
                    spec_fd_set_test(old(read_set)@, fd)
                }
            &&& forall|fd: usize| #[trigger]
                spec_fd_set_test(final(write_set)@, fd) == if fd < nfds && wants_any(
                    old(read_set)@,
                    old(write_set)@,
                    old(except_set)@,
                    fd,
                ) {
                    spec_select_ready(
                        spec_fd_set_test(old(read_set)@, fd),
                        spec_fd_set_test(old(write_set)@, fd),
                        probe_ready(probes@[fd as int]),
                    ).1
                } else {
                    spec_fd_set_test(old(write_set)@, fd)
                }
            &&& forall|fd: usize| #[trigger]
                spec_fd_set_test(final(except_set)@, fd) == if fd < nfds && wants_any(
                    old(read_set)@,
                    old(write_set)@,
                    old(except_set)@,
                    fd,
                ) {
                    false
                } else {
                    spec_fd_set_test(old(except_set)@, fd)
                }
        },
        r matches Ok(n) ==> n == count_ready(
            old(read_set)@,
            old(write_set)@,
            old(except_set)@,
            probes@,
            nfds as nat,
        ),
{
    let ghost r0 = read_set@;
    let ghost w0 = write_set@;
    let ghost e0 = except_set@;
    let mut count: usize = 0;
    let mut fd: usize = 0;
    while fd < nfds
        invariant
            fd <= nfds,
            probes@.len() >= nfds,
            r0 == old(read_set)@,
            w0 == old(write_set)@,
            e0 == old(except_set)@,
            count <= fd,
            count == count_ready(r0, w0, e0, probes@, fd as nat),
            read_set@.len() == r0.len(),
            write_set@.len() == w0.len(),
            except_set@.len() == e0.len(),
            forall|g: usize| #[trigger] spec_fd_set_test(read_set@, g) == spec_fd_set_test(r0, g)
                || (g < fd && wants_any(r0, w0, e0, g)),
            forall|g: usize| g < fd ==> #[trigger] select_error(r0, w0, e0, probes@, g) is None,
            forall|g: usize| #[trigger]
                spec_fd_set_test(read_set@, g) == if g < fd && wants_any(r0, w0, e0, g) {
                    spec_select_ready(
                        spec_fd_set_test(r0, g),
                        spec_fd_set_test(w0, g),
                        probe_ready(probes@[g as int]),
                    ).0
                } else {
                    spec_fd_set_test(r0, g)
                },
            forall|g: usize| #[trigger]
                spec_fd_set_test(write_set@, g) == if g < fd && wants_any(r0, w0, e0, g) {
                    spec_select_ready(
                        spec_fd_set_test(r0, g),
                        spec_fd_set_test(w0, g),
                        probe_ready(probes@[g as int]),
                    ).1
                } else {
                    spec_fd_set_test(w0, g)
                },
            forall|g: usize| #[trigger]
                spec_fd_set_test(except_set@, g) == if g < fd && wants_any(r0, w0, e0, g) {
                    false
                } else {
                    spec_fd_set_test(e0, g)
                },
        decreases nfds - fd,
    {
        let want_read = fd_set_test(read_set.as_slice(), fd);
        let want_write = fd_set_test(write_set.as_slice(), fd);
        let want_except = fd_set_test(except_set.as_slice(), fd);
        proof {
            assert(want_read == spec_fd_set_test(r0, fd));
            assert(want_write == spec_fd_set_test(w0, fd));
            assert(want_except == spec_fd_set_test(e0, fd));
        }
        if !want_read && !want_write && !want_except {
            proof {
                assert(((fd + 1 - 1) as usize) == fd);
                assert(count_ready(r0, w0, e0, probes@, (fd + 1) as nat) == count_ready(
                    r0,
                    w0,
                    e0,
                    probes@,
                    fd as nat,
                ));
            }
            fd = fd + 1;
            continue;
        }
        let ready = match probes[fd] {
            None => {
                proof {
                    assert(select_error(r0, w0, e0, probes@, fd) == Some(SysErr::BadFd));
                }
                return Err(SysErr::BadFd);
            },
            Some(Err(e)) => {
                proof {
                    assert(select_error(r0, w0, e0, probes@, fd) == Some(e));
                }
                return Err(e);
            },
            Some(Ok(ready)) => ready,
        };
        let (read_ready, write_ready) = select_ready(want_read, want_write, ready);
        let ghost rb = read_set@;
        let ghost wb = write_set@;
        let ghost eb = except_set@;
        fd_set_assign(read_set, fd, read_ready);
        fd_set_assign(write_set, fd, write_ready);
        fd_set_assign(except_set, fd, false);
        proof {
            assert forall|g: usize| #[trigger] spec_fd_set_test(read_set@, g) == if g == fd {
                read_ready
            } else {
                spec_fd_set_test(rb, g)
            } by {
                if fd / 8 < rb.len() {
                    lemma_fd_set_assign(rb, fd, read_ready, g);
                } else if g == fd {
                    assert(!spec_fd_set_test(rb, fd));
                    assert(!read_ready) by {
                        assert(!want_read);
                    }
                }
            }
            assert forall|g: usize| #[trigger] spec_fd_set_test(write_set@, g) == if g == fd {
                write_ready
            } else {
                spec_fd_set_test(wb, g)
            } by {
                if fd / 8 < wb.len() {
                    lemma_fd_set_assign(wb, fd, write_ready, g);
                } else if g == fd {
                    assert(!want_write);
                }
            }
            assert forall|g: usize| #[trigger] spec_fd_set_test(except_set@, g) == if g == fd {
                false
            } else {
                spec_fd_set_test(eb, g)
            } by {
                if fd / 8 < eb.len() {
                    lemma_fd_set_assign(eb, fd, false, g);
                }
            }
        }
        proof {
            assert(((fd + 1 - 1) as usize) == fd);
            assert(count_ready(r0, w0, e0, probes@, (fd + 1) as nat) == count_ready(
                r0,
                w0,
                e0,
                probes@,
                fd as nat,
            ) + if read_ready || write_ready {
                1nat
            } else {
                0nat
            });
        }
        if read_ready || write_ready {
            count = count + 1;
        }
        fd = fd + 1;
    }
    Ok(count)
}

/// Reading back the bytes of a `pollfd` gives it back.
pub proof fn lemma_pollfd_roundtrip(p: LinuxPollFd)
    ensures
        pollfd_bytes(p).len() == 8,
        le_i32_at(pollfd_bytes(p), 0) == p.fd,
        le_u16_at(pollfd_bytes(p), 4) as i16 == p.events,
        le_u16_at(pollfd_bytes(p), 6) as i16 == p.revents,
{
    let b = pollfd_bytes(p);
    lemma_i32_roundtrip(p.fd);
    lemma_u16_roundtrip(p.events as u16);
    lemma_u16_roundtrip(p.revents as u16);
    let f = i32_le(p.fd);
    let e = u16_le(p.events as u16);
    let r = u16_le(p.revents as u16);
    assert(b[0] == f[0] && b[1] == f[1] && b[2] == f[2] && b[3] == f[3]);
    assert(b[4] == e[0] && b[5] == e[1] && b[6] == r[0] && b[7] == r[1]);
    let ev = p.events;
    let rv = p.revents;
    assert((ev as u16) as i16 == ev) by (bit_vector);
    assert((rv as u16) as i16 == rv) by (bit_vector);
}

/// What a `poll` or `pselect` wait does once the descriptors have been looked at.
#[derive(Debug, Clone, Copy, PartialEq, Eq)]
pub enum PollWaitStep {
    /// The call returns this.
    Return(Result<u64, SysErr>),
    /// The task blocks until a descriptor is ready, the deadline passes or a signal comes.
    Block,
}

/// The decision of a wait that found `ready` descriptors ready: return their count when
/// there are any; return 0 for a zero timeout; fail with `Intr` when a signal is waiting
/// to be delivered; block otherwise.
pub open spec fn spec_poll_wait_step(ready: usize, timeout_nanos: Option<u64>, signal_deliverable: bool) -> PollWaitStep {
    if ready != 0 {
        PollWaitStep::Return(Ok(ready as u64))
    } else if timeout_nanos == Some(0u64) {
        PollWaitStep::Return(Ok(0))
    } else if signal_deliverable {
        PollWaitStep::Return(Err(SysErr::Intr))
    } else {
        PollWaitStep::Block
    }
}

/// Decides a `poll` or `pselect` wait; see `spec_poll_wait_step`.
pub fn poll_wait_step(ready: usize, timeout_nanos: Option<u64>, signal_deliverable: bool) -> (r: PollWaitStep)
    ensures
        r == spec_poll_wait_step(ready, timeout_nanos, signal_deliverable),
{
    if ready != 0 {
        PollWaitStep::Return(Ok(ready as u64))
    } else if timeout_nanos == Some(0u64) {
        PollWaitStep::Return(Ok(0))
    } else if signal_deliverable {
        PollWaitStep::Return(Err(SysErr::Intr))
    } else {
        PollWaitStep::Block
    }
}

/// How a blocked `poll` or `pselect` wait was woken.
#[derive(Debug, Clone, Copy, PartialEq, Eq, Structural)]
pub enum PollWake {
    /// A descriptor may be ready: look at them all again.
    Again,
    /// The deadline passed: look at them once more and return what is ready.
    TimedOut,
    /// A signal, or any other wake: the call fails with `Intr`.
    Interrupted,
}

/// What a blocked wait does with what it was woken with: a poll wake without timeout looks
/// again, a timed-out one returns what is then ready, anything else is an interruption.
pub fn poll_wake(timed_out: Option<bool>) -> (r: PollWake)
    ensures
        r == (match timed_out {
            Some(false) => PollWake::Again,
            Some(true) => PollWake::TimedOut,
            None => PollWake::Interrupted,
        }),
{
    match timed_out {
        Some(false) => PollWake::Again,
        Some(true) => PollWake::TimedOut,
        None => PollWake::Interrupted,
    }
}

} // verus!
