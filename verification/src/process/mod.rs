//! Process identities, futex keys, child events and the per-process `prctl` state.
pub mod clone;
pub mod itimer;
pub mod manager;
pub mod mmap;
pub mod util;
pub mod robust;

use vstd::prelude::*;
use vstd::string::StringSliceAdditionalSpecFns;

verus! {

/// A process or thread ID.
pub type Pid = u32;

/// The six raw arguments of a system call.
pub type SyscallArgs = [u64; 6];

/// The IDs that place a task among threads, processes, process groups and sessions.
#[derive(Debug, Clone, Copy, PartialEq, Eq, Structural)]
pub struct ProcessIdentity {
    pub pid: Pid,
    pub thread_group: Pid,
    pub parent: Option<Pid>,
    pub process_group: Pid,
    pub session: Pid,
}

impl ProcessIdentity {
    /// Whether the task is a thread other than its group's leader.
    pub fn is_thread(&self) -> (r: bool)
        ensures
            r == (self.thread_group != self.pid),
    {
        self.thread_group != self.pid
    }
}

/// Whom a futex word belongs to: one address space, or shared memory.
#[derive(Debug, Clone, Copy, PartialEq, Eq, PartialOrd, Ord, Structural)]
pub enum FutexScope {
    Private { address_space_id: usize },
    Shared,
}

/// The key under which waiters on a futex word are found.
#[derive(Debug, Clone, Copy, PartialEq, Eq, PartialOrd, Ord, Structural)]
pub struct FutexKey {
    pub scope: FutexScope,
    pub uaddr: u64,
}

impl FutexKey {
    /// The key of a futex word private to one address space.
    pub fn private(address_space_id: usize, uaddr: u64) -> (r: Self)
        ensures
            r == (FutexKey { scope: FutexScope::Private { address_space_id }, uaddr }),
    {
        FutexKey { scope: FutexScope::Private { address_space_id }, uaddr }
    }

    /// The key of a futex word in shared memory.
    pub fn shared(uaddr: u64) -> (r: Self)
        ensures
            r == (FutexKey { scope: FutexScope::Shared, uaddr }),
    {
        FutexKey { scope: FutexScope::Shared, uaddr }
    }
}

/// What happened to a child.
#[derive(Debug, Clone, Copy, PartialEq, Eq, Structural)]
pub enum ChildEventKind {
    Exited(i32),
    Stopped(u8),
    Continued,
}

/// An event a parent can wait for.
#[derive(Debug, Clone, Copy, PartialEq, Eq, Structural)]
pub struct ChildEvent {
    pub pid: Pid,
    pub kind: ChildEventKind,
}

/// Which children a wait call looks at.
#[derive(Debug, Clone, Copy, PartialEq, Eq, Structural)]
pub enum WaitChildSelector {
    Any,
    Pid(Pid),
    ProcessGroup(Pid),
}

/// Which wait call is waiting.
#[derive(Debug, Clone, Copy, PartialEq, Eq, Structural)]
pub enum WaitChildApi {
    Wait4,
    WaitId,
}

/// A system call that was interrupted and is to be resumed.
#[derive(Debug, Clone, Copy, PartialEq, Eq)]
pub struct PendingSyscall {
    pub number: u64,
    pub args: SyscallArgs,
}

/// What the scheduler reports after running a task.
#[derive(Debug, Clone, PartialEq, Eq)]
pub enum ScheduleEvent {
    Idle,
    Syscall { pid: Pid, number: u64, name: &'static str },
    Interrupted { pid: Pid, vector: u8 },
    Exited { pid: Pid, status: i32 },
    Faulted { pid: Pid, vector: u8, error_code: u64 },
}

/// The last component of a path: what follows its last `/`.
pub open spec fn last_component(path: Seq<u8>) -> Seq<u8>
    decreases path.len(),
{
    if path.len() == 0 {
        path
    } else if path.last() == 47u8 {
        Seq::empty()
    } else {
        last_component(path.drop_last()).push(path.last())
    }
}

/// The 16-byte command name for `bytes`: at most its first 15 bytes, then zeros.
pub open spec fn comm_name(bytes: Seq<u8>) -> Seq<u8> {
    let len = if bytes.len() < 15 {
        bytes.len() as int
    } else {
        15
    };
    Seq::new(16, |i: int| if i < len { bytes[i] } else { 0u8 })
}

/// The part of `bytes` before its first zero byte.
pub open spec fn before_nul(bytes: Seq<u8>) -> Seq<u8>
    decreases bytes.len(),
{
    if bytes.len() == 0 {
        bytes
    } else if bytes[0] == 0 {
        Seq::empty()
    } else {
        seq![bytes[0]] + before_nul(bytes.drop_first())
    }
}

/// The process attributes that `prctl` reads and writes.
#[derive(Debug, Clone, Copy, PartialEq, Eq)]
pub struct PrctlState {
    pub parent_death_signal: u8,
    pub dumpable: bool,
    pub keepcaps: bool,
    pub no_new_privs: bool,
    pub child_subreaper: bool,
    pub timer_slack_nanos: u64,
    pub thp_disable: bool,
    pub capability_bounding_set: u64,
    pub name: [u8; 16],
}

/// The highest capability number the kernel knows.
pub const CAP_LAST_CAP: u64 = 40;

/// Every capability up to `CAP_LAST_CAP`.
pub const FULL_CAPABILITY_SET: u64 = 0x1ff_ffff_ffff;

fn fill_name(name: &mut [u8; 16], bytes: &[u8], start: usize, len: usize)
    requires
        len <= 15,
        start + len <= bytes@.len(),
    ensures
        final(name)@ == comm_name(bytes@.subrange(start as int, start + len)),
{
    let ghost src = bytes@.subrange(start as int, start + len);
    let n = bytes.len();
    let mut i: usize = 0;
    while i < 16
        invariant
            i <= 16,
            n == bytes@.len(),
            len <= 15,
            start + len <= bytes@.len(),
            src == bytes@.subrange(start as int, start + len),
            forall|k: int| 0 <= k < i ==> #[trigger] name@[k] == comm_name(src)[k],
            name@.len() == 16,
        decreases 16 - i,
    {
        if i < len {
            name[i] = bytes[start + i];
        } else {
            name[i] = 0;
        }
        i = i + 1;
    }
    assert(name@ =~= comm_name(src));
}

/// Where the last component of `bytes` starts: just past its last `/`, or 0.
fn last_component_start(bytes: &[u8]) -> (r: usize)
    ensures
        r <= bytes@.len(),
        bytes@.subrange(r as int, bytes@.len() as int) == last_component(bytes@),
{
    let mut end: usize = bytes.len();
    let ghost full = bytes@;
    assert(full.subrange(0, end as int) =~= full);
    assert(full.subrange(end as int, full.len() as int) =~= Seq::<u8>::empty());
    while end > 0 && bytes[end - 1] != 47u8
        invariant
            end <= bytes@.len(),
            full == bytes@,
            last_component(full) == last_component(full.subrange(0, end as int)) + full.subrange(
                end as int,
                full.len() as int,
            ),
        decreases end,
    {
        let ghost p = full.subrange(0, end as int);
        assert(p.drop_last() =~= full.subrange(0, end - 1));
        assert(full.subrange(end - 1, full.len() as int) =~= seq![p.last()] + full.subrange(
            end as int,
            full.len() as int,
        ));
        assert(last_component(p) == last_component(p.drop_last()).push(p.last()));
        assert(last_component(p.drop_last()).push(p.last()) + full.subrange(
            end as int,
            full.len() as int,
        ) =~= last_component(p.drop_last()) + (seq![p.last()] + full.subrange(
            end as int,
            full.len() as int,
        )));
        end = end - 1;
    }
    assert(full.subrange(0, full.len() as int) =~= full);
    if end > 0 {
        let ghost p = full.subrange(0, end as int);
        assert(last_component(p) == Seq::<u8>::empty());
    } else {
        assert(full.subrange(0, 0) =~= Seq::<u8>::empty());
    }
    assert(last_component(full) =~= full.subrange(end as int, full.len() as int));
    end
}

/// The position of the first NUL byte of `bytes`, or its length when there is none.
pub fn nul_position(bytes: &[u8]) -> (r: usize)
    ensures
        r <= bytes@.len(),
        bytes@.subrange(0, r as int) == before_nul(bytes@),
{
    let mut i: usize = 0;
    while i < bytes.len() && bytes[i] != 0
        invariant
            i <= bytes@.len(),
            forall|k: int| 0 <= k < i ==> bytes@[k] != 0,
        decreases bytes@.len() - i,
    {
        i = i + 1;
    }
    proof {
        lemma_before_nul(bytes@, i as int);
    }
    i
}

proof fn lemma_before_nul(s: Seq<u8>, i: int)
    requires
        0 <= i <= s.len(),
        forall|k: int| 0 <= k < i ==> s[k] != 0,
        i < s.len() ==> s[i] == 0,
    ensures
        s.subrange(0, i) == before_nul(s),
    decreases s.len(),
{
    if s.len() == 0 {
        assert(s.subrange(0, 0) =~= s);
    } else if s[0] == 0 {
        assert(i == 0);
        assert(s.subrange(0, 0) =~= Seq::<u8>::empty());
    } else {
        let t = s.drop_first();
        assert(forall|k: int| 0 <= k < i - 1 ==> t[k] == s[k + 1]);
        lemma_before_nul(t, i - 1);
        assert(s.subrange(0, i) =~= seq![s[0]] + t.subrange(0, i - 1));
    }
}

impl PrctlState {
    /// The state of a process that executes `path`: dumpable, a 50 us timer slack, every
    /// capability in the bounding set, and the command name taken from the path.
    pub fn for_exec_path(path: &str) -> (r: Self)
        ensures
            r.parent_death_signal == 0,
            r.dumpable,
            !r.keepcaps,
            !r.no_new_privs,
            !r.child_subreaper,
            r.timer_slack_nanos == 50_000,
            !r.thp_disable,
            r.capability_bounding_set == FULL_CAPABILITY_SET,
            r.name@ == comm_name(last_component(path.spec_bytes())),
    {
        proof {
            assert((1u64 << 41u64) - 1 == 0x1ff_ffff_ffffu64) by (bit_vector);
        }
        let mut state = PrctlState {
            parent_death_signal: 0,
            dumpable: true,
            keepcaps: false,
            no_new_privs: false,
            child_subreaper: false,
            timer_slack_nanos: 50_000,
            thp_disable: false,
            capability_bounding_set: if CAP_LAST_CAP >= 63 {
                u64::MAX
            } else {
                (1u64 << (CAP_LAST_CAP + 1)) - 1
            },
            name: [0u8; 16],
        };
        state.set_name(path);
        state
    }

    /// Sets the command name from a path: the first 15 bytes of its last component.
    pub fn set_name(&mut self, path: &str)
        ensures
            final(self).name@ == comm_name(last_component(path.spec_bytes())),
            *final(self) == (PrctlState { name: final(self).name, ..*old(self) }),
    {
        let bytes = path.as_bytes();
        let start = last_component_start(bytes);
        let avail = bytes.len() - start;
        let len = if avail < 15 {
            avail
        } else {
            15
        };
        fill_name(&mut self.name, bytes, start, len);
        proof {
            let c = last_component(path.spec_bytes());
            assert(comm_name(bytes@.subrange(start as int, start + len)) =~= comm_name(c));
        }
    }

    /// Sets the command name from raw bytes: those before the first zero, at most 15.
    pub fn set_name_bytes(&mut self, bytes: &[u8])
        ensures
            final(self).name@ == comm_name(before_nul(bytes@)),
            *final(self) == (PrctlState { name: final(self).name, ..*old(self) }),
    {
        let end = nul_position(bytes);
        let len = if end < 15 {
            end
        } else {
            15
        };
        fill_name(&mut self.name, bytes, 0, len);
        proof {
            let c = before_nul(bytes@);
            assert(comm_name(bytes@.subrange(0, len as int)) =~= comm_name(c));
        }
    }

    /// The command name.
    pub fn name_bytes(&self) -> (r: &[u8; 16])
        ensures
            *r == self.name,
    {
        &self.name
    }
}

/// A command name always ends in a zero byte.
pub proof fn lemma_comm_name_terminated(bytes: Seq<u8>)
    ensures
        comm_name(bytes).len() == 16,
        comm_name(bytes)[15] == 0,
{
}

} // verus!
