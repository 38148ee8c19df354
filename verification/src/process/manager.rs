//! The process manager's bookkeeping: the tasks it holds with their states, the indexes of
//! blocked tasks (by file, timer deadline and futex), the futex waits armed by running
//! tasks, and the wake-ups that follow from them. The scheduler's run queues are fed
//! through the `(pid, cpu)` pairs that the operations append to `runnable`.
use vstd::prelude::*;
use std::collections::{HashMap, HashSet};

use super::{ChildEvent, ChildEventKind, FutexKey, Pid, ProcessIdentity, WaitChildApi, WaitChildSelector};
use crate::deadline::{first_deadline, is_earliest, lemma_earliest_exists, DeadlineSet};
use crate::signal::abi::{
    SigSet, SignalAction, SignalInfo, CLD_CONTINUED, CLD_EXITED, CLD_KILLED, CLD_STOPPED, SA_NOCLDSTOP, SA_NOCLDWAIT,
    SIG_IGN, SIGCHLD, SIGCONT, SIGSEGV,
};
use super::util::{child_event_matches_options, spec_wait_status, wait_status, WCONTINUED, WUNTRACED};
use crate::signal::delivery::{is_blocked, spec_is_blocked, SignalDelivery};
use super::clone::{clone_verdict, CloneParams, CLONE_CHILD_CLEARTID, CLONE_CHILD_SETTID, CLONE_PARENT, CLONE_PARENT_SETTID, CLONE_SETTLS, CLONE_THREAD, CLONE_VFORK, CLONE_VM};
use super::PrctlState;
use crate::processor::{any_online, is_chosen_cpu, select_cpu_for_child};
use crate::arch::exception::{classify_user_exception, UserExceptionClass, UserExceptionDetails};
use crate::arch::x86_64::exception::exception_signal;
use crate::signal::state::SignalActions;

verus! {

broadcast use vstd::std_specs::hash::group_hash_axioms;

/// `clock_nanosleep` flag: the target is an absolute time.
pub const TIMER_ABSTIME: u64 = 1;

/// What a blocked task waits for.
#[derive(Debug, Clone, Copy, PartialEq, Eq, Structural)]
pub enum ProcessBlock {
    File { fd: u32, events: u32 },
    Poll { deadline_nanos: Option<u64> },
    SignalSuspend,
    Vfork { child: Pid },
    WaitChild {
        selector: WaitChildSelector,
        api: WaitChildApi,
        status_ptr: u64,
        info_ptr: u64,
        options: u64,
    },
    Futex { key: FutexKey, bitset: u32, deadline_nanos: Option<u64> },
    Timer { target_nanos: u64, request_nanos: u64, rmtp: u64, flags: u64 },
}

/// Where a task stands.
#[derive(Debug, Clone, Copy, PartialEq, Eq, Structural)]
pub enum ProcessState {
    Runnable,
    Running,
    Stopped(u8),
    Blocked(ProcessBlock),
    Exited(i32),
    Faulted { vector: u8, error_code: u64 },
}

/// What a blocked system call is resumed with.
#[derive(Debug, Clone, Copy, PartialEq, Eq, Structural)]
pub enum BlockResult {
    File { ready: bool },
    Poll { timed_out: bool },
    Timer { completed: bool, remaining_nanos: u64, rmtp: u64, is_absolute: bool },
    Futex { woke: bool, timed_out: bool },
    SignalInterrupted,
    CompletedValue { value: u64 },
}

/// A futex wait announced by a running task before it blocks; a wake that comes in between
/// is remembered in `raced_wake`.
#[derive(Debug, Clone, Copy, PartialEq, Eq, Structural)]
pub struct ArmedFutexWait {
    pub key: FutexKey,
    pub bitset: u32,
    pub raced_wake: bool,
}

/// The manager's record of a task it holds.
#[derive(Debug, Clone, Copy, PartialEq, Eq, Structural)]
pub struct TaskEntry {
    pub identity: ProcessIdentity,
    pub state: ProcessState,
    pub wake_result: Option<BlockResult>,
    pub assigned_cpu: usize,
    pub blocked_signals: SigSet,
}

/// An exited child its parent has not waited for yet.
#[derive(Debug, Clone, Copy, PartialEq, Eq, Structural)]
pub struct ZombieProcess {
    pub parent: Option<Pid>,
    pub process_group: Pid,
}

/// A task running on a CPU, as the CPU reports it.
#[derive(Debug, Clone, Copy, PartialEq, Eq, Structural)]
pub struct RunningTask {
    pub pid: Pid,
    pub thread_group: Pid,
    pub process_group: Pid,
    pub cpu: usize,
}

/// The manager's bookkeeping as values; `runnable` holds the tasks handed to the run
/// queues, with their CPUs, oldest first.
pub struct ManagerState {
    pub tasks: Map<Pid, TaskEntry>,
    pub blocked_files: Set<Pid>,
    pub blocked_timers: Set<(u64, u64)>,
    pub next_timer_deadline: Option<u64>,
    pub blocked_futexes: Set<(FutexKey, Pid)>,
    pub armed: Map<Pid, ArmedFutexWait>,
    pub thread_groups: Set<(Pid, Pid)>,
    pub parent_children: Set<(Pid, Pid)>,
    pub zombies: Map<Pid, ZombieProcess>,
    pub child_events: Seq<(Pid, ChildEvent)>,
    pub group_exit_status: Map<Pid, i32>,
    pub queued_signals: Seq<(Pid, SignalInfo)>,
    pub runnable: Seq<(Pid, usize)>,
}

/// Whether `a` comes before `b`: by the first pid, then the second.
pub open spec fn pair_lt(a: (Pid, Pid), b: (Pid, Pid)) -> bool {
    a.0 < b.0 || (a.0 == b.0 && a.1 < b.1)
}

/// Whether the pairs of `s` are strictly ascending.
pub open spec fn pairs_ascending(s: Seq<(Pid, Pid)>) -> bool {
    forall|i: int, j: int| 0 <= i < j < s.len() ==> pair_lt(s[i], s[j])
}

/// Whether the pids of `s` are strictly ascending.
pub open spec fn ascending(s: Seq<Pid>) -> bool {
    forall|i: int, j: int| 0 <= i < j < s.len() ==> s[i] < s[j]
}

/// The members of `set` in ascending order.
pub open spec fn in_order(set: Set<Pid>) -> Seq<Pid> {
    choose|s: Seq<Pid>| ascending(s) && s.to_set() == set
}

/// Two ascending sequences with the same members are the same.
pub proof fn lemma_ascending_unique(a: Seq<Pid>, b: Seq<Pid>)
    requires
        ascending(a),
        ascending(b),
        a.to_set() == b.to_set(),
    ensures
        a == b,
    decreases a.len(),
{
    if a.len() == 0 {
        if b.len() > 0 {
            assert(b.to_set().contains(b[0]));
        }
        assert(b.len() == 0);
    } else {
        assert(a.to_set().contains(a[0]));
        assert(b.len() > 0) by {
            if b.len() == 0 {
                assert(b.to_set().contains(a[0]));
            }
        }
        assert(a[0] == b[0]) by {
            assert(b.to_set().contains(a[0]));
            assert(a.to_set().contains(b[0]));
            let i = choose|i: int| 0 <= i < b.len() && b[i] == a[0];
            let j = choose|j: int| 0 <= j < a.len() && a[j] == b[0];
            if i > 0 {
                assert(b[0] < b[i]);
            }
            if j > 0 {
                assert(a[0] < a[j]);
            }
        }
        let a1 = a.drop_first();
        let b1 = b.drop_first();
        assert forall|x: Pid| a1.to_set().contains(x) == b1.to_set().contains(x) by {
            if a1.to_set().contains(x) {
                let i = choose|i: int| 0 <= i < a1.len() && a1[i] == x;
                assert(a[i + 1] == x);
                assert(a[0] < x);
                assert(b.to_set().contains(x));
                let j = choose|j: int| 0 <= j < b.len() && b[j] == x;
                assert(j != 0);
                assert(b1[j - 1] == x);
            }
            if b1.to_set().contains(x) {
                let j = choose|j: int| 0 <= j < b1.len() && b1[j] == x;
                assert(b[j + 1] == x);
                assert(b[0] < x);
                assert(a.to_set().contains(x));
                let i = choose|i: int| 0 <= i < a.len() && a[i] == x;
                assert(i != 0);
                assert(a1[i - 1] == x);
            }
        }
        assert(a1.to_set() =~= b1.to_set());
        lemma_ascending_unique(a1, b1);
        assert(a =~= seq![a[0]] + a1);
        assert(b =~= seq![b[0]] + b1);
    }
}

/// An ascending sequence is the one `in_order` names for its members.
pub proof fn lemma_in_order(s: Seq<Pid>)
    requires
        ascending(s),
    ensures
        in_order(s.to_set()) == s,
{
    let c = in_order(s.to_set());
    assert(ascending(s) && s.to_set() == s.to_set());
    lemma_ascending_unique(c, s);
}

/// The earliest blocked-timer deadline is `next`, after a deadline `d` was added.
pub open spec fn spec_note_inserted(st: ManagerState, d: u64) -> ManagerState {
    ManagerState {
        next_timer_deadline: Some(
            match st.next_timer_deadline {
                Some(c) => if c <= d {
                    c
                } else {
                    d
                },
                None => d,
            },
        ),
        ..st
    }
}

/// The cached earliest deadline, recomputed from the timer index.
pub open spec fn spec_refresh_next(st: ManagerState) -> ManagerState {
    ManagerState { next_timer_deadline: first_deadline(st.blocked_timers), ..st }
}

/// After the last waiter of `d` left: the cache is recomputed when it named `d`.
pub open spec fn spec_note_removed(st: ManagerState, d: u64) -> ManagerState {
    if st.next_timer_deadline == Some(d) {
        spec_refresh_next(st)
    } else {
        st
    }
}

/// Whether the timer index holds something at `d`.
pub open spec fn has_deadline(s: Set<(u64, u64)>, d: u64) -> bool {
    exists|id: u64| s.contains((d, id))
}

/// Takes `pid` off the waiters of deadline `d`; when that empties the deadline, the cache
/// follows (`spec_note_removed`).
pub open spec fn spec_remove_timer_waiter(st: ManagerState, d: u64, pid: Pid) -> ManagerState {
    if has_deadline(st.blocked_timers, d) {
        let st1 = ManagerState { blocked_timers: st.blocked_timers.remove((d, pid as u64)), ..st };
        if !has_deadline(st1.blocked_timers, d) {
            spec_note_removed(st1, d)
        } else {
            st1
        }
    } else {
        st
    }
}

/// Adds `pid` to the waiters of deadline `d`.
pub open spec fn spec_add_timer_waiter(st: ManagerState, d: u64, pid: Pid) -> ManagerState {
    spec_note_inserted(
        ManagerState { blocked_timers: st.blocked_timers.insert((d, pid as u64)), ..st },
        d,
    )
}

/// The indexes after a task enters `state`: a file or poll wait joins the file waiters, a
/// futex wait the futex's waiters, and a deadline the timer index.
pub open spec fn spec_track(st: ManagerState, pid: Pid, state: ProcessState) -> ManagerState {
    match state {
        ProcessState::Blocked(block) => match block {
            ProcessBlock::File { .. } => ManagerState {
                blocked_files: st.blocked_files.insert(pid),
                ..st
            },
            ProcessBlock::Poll { deadline_nanos } => {
                let st1 = ManagerState { blocked_files: st.blocked_files.insert(pid), ..st };
                match deadline_nanos {
                    Some(d) => spec_add_timer_waiter(st1, d, pid),
                    None => st1,
                }
            },
            ProcessBlock::Timer { target_nanos, .. } => spec_add_timer_waiter(st, target_nanos, pid),
            ProcessBlock::Futex { key, deadline_nanos, .. } => {
                let st1 = ManagerState { blocked_futexes: st.blocked_futexes.insert((key, pid)), ..st };
                match deadline_nanos {
                    Some(d) => spec_add_timer_waiter(st1, d, pid),
                    None => st1,
                }
            },
            _ => st,
        },
        _ => st,
    }
}

/// The indexes after a task leaves `state`: the entries `spec_track` made go.
pub open spec fn spec_untrack(st: ManagerState, pid: Pid, state: ProcessState) -> ManagerState {
    match state {
        ProcessState::Blocked(block) => match block {
            ProcessBlock::File { .. } => ManagerState {
                blocked_files: st.blocked_files.remove(pid),
                ..st
            },
            ProcessBlock::Poll { deadline_nanos } => {
                let st1 = ManagerState { blocked_files: st.blocked_files.remove(pid), ..st };
                match deadline_nanos {
                    Some(d) => spec_remove_timer_waiter(st1, d, pid),
                    None => st1,
                }
            },
            ProcessBlock::Timer { target_nanos, .. } => spec_remove_timer_waiter(st, target_nanos, pid),
            ProcessBlock::Futex { key, deadline_nanos, .. } => {
                let st1 = ManagerState { blocked_futexes: st.blocked_futexes.remove((key, pid)), ..st };
                match deadline_nanos {
                    Some(d) => spec_remove_timer_waiter(st1, d, pid),
                    None => st1,
                }
            },
            _ => st,
        },
        _ => st,
    }
}

proof fn lemma_untrack_keeps(st: ManagerState, pid: Pid, state: ProcessState)
    ensures
        spec_untrack(st, pid, state).tasks == st.tasks,
        spec_untrack(st, pid, state).runnable == st.runnable,
        spec_untrack(st, pid, state).armed == st.armed,
{
}

proof fn lemma_track_keeps(st: ManagerState, pid: Pid, state: ProcessState)
    ensures
        spec_track(st, pid, state).tasks == st.tasks,
        spec_track(st, pid, state).runnable == st.runnable,
        spec_track(st, pid, state).armed == st.armed,
{
}

/// A blocked task is woken with `result`: it leaves the indexes, becomes runnable and is
/// handed to its CPU's run queue; nothing for a task the manager does not hold blocked.
pub open spec fn spec_wake_with_result(st: ManagerState, pid: Pid, result: BlockResult) -> ManagerState {
    if st.tasks.contains_key(pid) && st.tasks[pid].state is Blocked {
        let t = st.tasks[pid];
        let st1 = spec_untrack(st, pid, t.state);
        ManagerState {
            tasks: st1.tasks.insert(
                pid,
                TaskEntry { wake_result: Some(result), state: ProcessState::Runnable, ..t },
            ),
            runnable: st1.runnable.push((pid, t.assigned_cpu)),
            ..st1
        }
    } else {
        st
    }
}

/// Whether an armed wait is one that a wake on `key` with `bitset` reaches.
pub open spec fn armed_matches(w: ArmedFutexWait, key: FutexKey, bitset: u32) -> bool {
    w.key == key && w.bitset & bitset != 0 && !w.raced_wake
}

/// Marks up to `count` of the armed waits on `key` as woken, going through the pids of
/// `order` from position `i`; with how many were marked.
pub open spec fn spec_wake_armed_from(
    m: Map<Pid, ArmedFutexWait>,
    order: Seq<Pid>,
    i: int,
    key: FutexKey,
    bitset: u32,
    count: int,
) -> (Map<Pid, ArmedFutexWait>, int)
    decreases order.len() - i,
{
    if i >= order.len() || i < 0 || count <= 0 {
        (m, 0)
    } else {
        let p = order[i];
        if armed_matches(m[p], key, bitset) {
            let (m2, n) = spec_wake_armed_from(
                m.insert(p, ArmedFutexWait { raced_wake: true, ..m[p] }),
                order,
                i + 1,
                key,
                bitset,
                count - 1,
            );
            (m2, n + 1)
        } else {
            spec_wake_armed_from(m, order, i + 1, key, bitset, count)
        }
    }
}

/// A futex wake reaching armed waits: the first `count` matching ones, by pid, are marked.
pub open spec fn spec_wake_armed(m: Map<Pid, ArmedFutexWait>, key: FutexKey, bitset: u32, count: int) -> (
    Map<Pid, ArmedFutexWait>,
    int,
) {
    spec_wake_armed_from(m, in_order(m.dom()), 0, key, bitset, count)
}

/// Moves up to `count` of the armed waits on `from` to `to`, by pid from position `i`.
pub open spec fn spec_requeue_armed_from(
    m: Map<Pid, ArmedFutexWait>,
    order: Seq<Pid>,
    i: int,
    from: FutexKey,
    to: FutexKey,
    bitset: u32,
    count: int,
) -> (Map<Pid, ArmedFutexWait>, int)
    decreases order.len() - i,
{
    if i >= order.len() || i < 0 || count <= 0 {
        (m, 0)
    } else {
        let p = order[i];
        if armed_matches(m[p], from, bitset) {
            let (m2, n) = spec_requeue_armed_from(
                m.insert(p, ArmedFutexWait { key: to, ..m[p] }),
                order,
                i + 1,
                from,
                to,
                bitset,
                count - 1,
            );
            (m2, n + 1)
        } else {
            spec_requeue_armed_from(m, order, i + 1, from, to, bitset, count)
        }
    }
}

proof fn lemma_requeue_armed_bound(
    m: Map<Pid, ArmedFutexWait>,
    order: Seq<Pid>,
    i: int,
    from: FutexKey,
    to: FutexKey,
    bitset: u32,
    count: int,
)
    ensures
        0 <= spec_requeue_armed_from(m, order, i, from, to, bitset, count).1,
        count >= 0 ==> spec_requeue_armed_from(m, order, i, from, to, bitset, count).1 <= count,
    decreases order.len() - i,
{
    if i >= order.len() || i < 0 || count <= 0 {
    } else {
        let p = order[i];
        if armed_matches(m[p], from, bitset) {
            lemma_requeue_armed_bound(
                m.insert(p, ArmedFutexWait { key: to, ..m[p] }),
                order,
                i + 1,
                from,
                to,
                bitset,
                count - 1,
            );
        } else {
            lemma_requeue_armed_bound(m, order, i + 1, from, to, bitset, count);
        }
    }
}

/// A requeue reaching armed waits: the first `count` matching waits on `from`, by pid,
/// move to `to`.
pub open spec fn spec_requeue_armed(
    m: Map<Pid, ArmedFutexWait>,
    from: FutexKey,
    to: FutexKey,
    bitset: u32,
    count: int,
) -> (Map<Pid, ArmedFutexWait>, int) {
    spec_requeue_armed_from(m, in_order(m.dom()), 0, from, to, bitset, count)
}

/// The tasks the manager holds and its indexes of blocked tasks and armed futex waits.
pub struct ProcessManager {
    next_pid: Pid,
    tasks: HashMap<Pid, TaskEntry>,
    blocked_files: HashSet<Pid>,
    blocked_timers: DeadlineSet,
    next_timer_deadline_nanos: Option<u64>,
    blocked_futexes: Vec<(FutexKey, Pid)>,
    armed_futex_waits: Vec<(Pid, ArmedFutexWait)>,
    thread_groups: Vec<(Pid, Pid)>,
    parent_children: Vec<(Pid, Pid)>,
    zombies: HashMap<Pid, ZombieProcess>,
    child_events: Vec<(Pid, ChildEvent)>,
    group_exit_status: HashMap<Pid, i32>,
    queued_signals: Vec<(Pid, SignalInfo)>,
}

/// The pids of a table of pid-keyed entries.
pub open spec fn pids_of<T>(s: Seq<(Pid, T)>) -> Seq<Pid> {
    s.map_values(|e: (Pid, T)| e.0)
}

/// A table of pid-keyed entries as a map.
pub open spec fn table_map<T>(s: Seq<(Pid, T)>) -> Map<Pid, T> {
    Map::new(|p: Pid| pids_of(s).contains(p), |p: Pid| s[pids_of(s).index_of(p)].1)
}

impl ProcessManager {
    /// The next pid handed out.
    pub closed spec fn next_pid(&self) -> Pid {
        self.next_pid
    }

    /// The manager's bookkeeping, with `runnable` as the run-queue hand-offs so far.
    pub closed spec fn state(&self, runnable: Seq<(Pid, usize)>) -> ManagerState {
        ManagerState {
            tasks: self.tasks@,
            blocked_files: self.blocked_files@,
            blocked_timers: self.blocked_timers@,
            next_timer_deadline: self.next_timer_deadline_nanos,
            blocked_futexes: self.blocked_futexes@.to_set(),
            armed: table_map(self.armed_futex_waits@),
            thread_groups: self.thread_groups@.to_set(),
            parent_children: self.parent_children@.to_set(),
            zombies: self.zombies@,
            child_events: self.child_events@,
            group_exit_status: self.group_exit_status@,
            queued_signals: self.queued_signals@,
            runnable,
        }
    }

    /// The timer index holds no entry twice, futex waiters come by ascending pid with no
    /// pair twice, and the armed waits by strictly ascending pid.
    pub closed spec fn wf(&self) -> bool {
        &&& self.blocked_timers.wf()
        &&& forall|e: (u64, u64)| #[trigger] self.blocked_timers@.contains(e) ==> e.1 <= u32::MAX
        &&& forall|i: int, j: int|
            0 <= i < j < self.blocked_futexes@.len() ==> self.blocked_futexes@[i].1
                <= self.blocked_futexes@[j].1 && self.blocked_futexes@[i] != self.blocked_futexes@[j]
        &&& ascending(pids_of(self.armed_futex_waits@))
        &&& pairs_ascending(self.thread_groups@)
        &&& pairs_ascending(self.parent_children@)
    }

    /// No tasks, nothing blocked or armed; pids start at 1.
    pub fn new() -> (r: Self)
        ensures
            r.wf(),
            r.next_pid() == 1,
            r.state(Seq::empty()) == (ManagerState {
                tasks: Map::empty(),
                blocked_files: Set::empty(),
                blocked_timers: Set::empty(),
                next_timer_deadline: None,
                blocked_futexes: Set::empty(),
                armed: Map::empty(),
                thread_groups: Set::empty(),
                parent_children: Set::empty(),
                zombies: Map::empty(),
                child_events: Seq::empty(),
                group_exit_status: Map::empty(),
                queued_signals: Seq::empty(),
                runnable: Seq::empty(),
            }),
    {
        let r = ProcessManager {
            next_pid: 1,
            tasks: HashMap::new(),
            blocked_files: HashSet::new(),
            blocked_timers: DeadlineSet::new(),
            next_timer_deadline_nanos: None,
            blocked_futexes: Vec::new(),
            armed_futex_waits: Vec::new(),
            thread_groups: Vec::new(),
            parent_children: Vec::new(),
            zombies: HashMap::new(),
            child_events: Vec::new(),
            group_exit_status: HashMap::new(),
            queued_signals: Vec::new(),
        };
        assert(r.thread_groups@.to_set() =~= Set::<(Pid, Pid)>::empty());
        assert(r.parent_children@.to_set() =~= Set::<(Pid, Pid)>::empty());
        assert(r.blocked_futexes@.to_set() =~= Set::<(FutexKey, Pid)>::empty());
        assert(table_map(r.armed_futex_waits@) =~= Map::<Pid, ArmedFutexWait>::empty());
        r
    }
}


impl ProcessManager {
    /// The task with `pid`, if the manager holds it.
    pub fn task(&self, pid: Pid) -> (r: Option<TaskEntry>)
        ensures
            r == (if self.state(Seq::empty()).tasks.contains_key(pid) {
                Some(self.state(Seq::empty()).tasks[pid])
            } else {
                None
            }),
    {
        match self.tasks.get(&pid) {
            Some(t) => Some(*t),
            None => None,
        }
    }

    /// The cached earliest blocked-timer deadline.
    pub fn next_timer_deadline_nanos(&self) -> (r: Option<u64>)
        ensures
            r == self.state(Seq::empty()).next_timer_deadline,
    {
        self.next_timer_deadline_nanos
    }

    /// Whether the earliest blocked-timer deadline has passed at `current_nanos`.
    pub fn timer_deadline_due(&self, current_nanos: u64) -> (r: bool)
        ensures
            r == (self.state(Seq::empty()).next_timer_deadline matches Some(d) && d <= current_nanos),
    {
        match self.next_timer_deadline_nanos {
            Some(d) => d <= current_nanos,
            None => false,
        }
    }

    fn refresh_next_timer_deadline(&mut self)
        requires
            old(self).wf(),
        ensures
            final(self).wf(),
            final(self).next_pid() == old(self).next_pid(),
            forall|q: Seq<(Pid, usize)>| #[trigger] final(self).state(q) == spec_refresh_next(old(self).state(q)),
    {
        self.next_timer_deadline_nanos = self.blocked_timers.earliest();
    }

    fn note_timer_deadline_inserted(&mut self, d: u64)
        requires
            old(self).wf(),
        ensures
            final(self).wf(),
            final(self).next_pid() == old(self).next_pid(),
            forall|q: Seq<(Pid, usize)>| #[trigger] final(self).state(q) == spec_note_inserted(old(self).state(q), d),
    {
        self.next_timer_deadline_nanos = Some(
            match self.next_timer_deadline_nanos {
                Some(c) => if c <= d {
                    c
                } else {
                    d
                },
                None => d,
            },
        );
    }

    fn note_timer_deadline_removed(&mut self, d: u64)
        requires
            old(self).wf(),
        ensures
            final(self).wf(),
            final(self).next_pid() == old(self).next_pid(),
            forall|q: Seq<(Pid, usize)>| #[trigger] final(self).state(q) == spec_note_removed(old(self).state(q), d),
    {
        if self.next_timer_deadline_nanos == Some(d) {
            self.refresh_next_timer_deadline();
        }
    }

    fn add_timer_waiter(&mut self, d: u64, pid: Pid)
        requires
            old(self).wf(),
        ensures
            final(self).wf(),
            final(self).next_pid() == old(self).next_pid(),
            forall|q: Seq<(Pid, usize)>| #[trigger] final(self).state(q) == spec_add_timer_waiter(old(self).state(q), d, pid),
    {
        self.blocked_timers.insert(d, pid as u64);
        self.note_timer_deadline_inserted(d);
    }

    fn remove_timer_waiter(&mut self, d: u64, pid: Pid)
        requires
            old(self).wf(),
        ensures
            final(self).wf(),
            final(self).next_pid() == old(self).next_pid(),
            forall|q: Seq<(Pid, usize)>| #[trigger] final(self).state(q) == spec_remove_timer_waiter(old(self).state(q), d, pid),
    {
        if self.blocked_timers.has_deadline(d) {
            self.blocked_timers.remove(d, pid as u64);
            if !self.blocked_timers.has_deadline(d) {
                self.note_timer_deadline_removed(d);
            }
        }
    }

    fn futex_index_insert(&mut self, key: FutexKey, pid: Pid)
        requires
            old(self).wf(),
        ensures
            final(self).wf(),
            final(self).next_pid() == old(self).next_pid(),
            forall|q: Seq<(Pid, usize)>| #[trigger] final(self).state(q) == (ManagerState {
                blocked_futexes: old(self).state(q).blocked_futexes.insert((key, pid)),
                ..old(self).state(q)
            }),
    {
        let ghost before = self.blocked_futexes@;
        let mut j: usize = 0;
        let mut found = false;
        while j < self.blocked_futexes.len() && !found && self.blocked_futexes[j].1 <= pid
            invariant
                j <= before.len(),
                self.blocked_futexes@ == before,
                found ==> before.to_set().contains((key, pid)),
                !found ==> forall|k: int| 0 <= k < j ==> before[k].1 <= pid && #[trigger] before[k] != (key, pid),
            decreases before.len() - j + (if found { 0int } else { 1int }),
        {
            let e = self.blocked_futexes[j];
            if e.0 == key && e.1 == pid {
                assert(before[j as int] == (key, pid));
                found = true;
            } else {
                j = j + 1;
            }
        }
        if found {
            assert(before.to_set().insert((key, pid)) =~= before.to_set());
            return;
        }
        proof {
            assert forall|k: int| j <= k < before.len() implies before[k].1 > pid by {
                if j < before.len() {
                    assert(before[j as int].1 > pid);
                    if k > j {
                        assert(before[j as int].1 <= before[k].1);
                    }
                }
            }
        }
        self.blocked_futexes.insert(j, (key, pid));
        proof {
            let after = self.blocked_futexes@;
            assert(after =~= before.take(j as int).push((key, pid)) + before.skip(j as int));
            assert forall|a: int, b: int| 0 <= a < b < after.len() implies after[a].1 <= after[b].1
                && after[a] != after[b] by {
                if b < j {
                    assert(after[a] == before[a] && after[b] == before[b]);
                } else if b == j {
                    assert(after[a] == before[a]);
                } else if a == j {
                    assert(after[b] == before[b - 1]);
                } else if a < j {
                    assert(after[a] == before[a] && after[b] == before[b - 1]);
                } else {
                    assert(after[a] == before[a - 1] && after[b] == before[b - 1]);
                }
            }
            assert forall|e: (FutexKey, Pid)| after.to_set().contains(e) == before.to_set().insert((key, pid)).contains(e) by {
                if after.to_set().contains(e) {
                    let a = choose|a: int| 0 <= a < after.len() && after[a] == e;
                    if a < j {
                        assert(before[a] == e);
                    } else if a > j {
                        assert(before[a - 1] == e);
                    }
                }
                if before.to_set().contains(e) {
                    let b = choose|b: int| 0 <= b < before.len() && before[b] == e;
                    if b < j {
                        assert(after[b] == e);
                    } else {
                        assert(after[b + 1] == e);
                    }
                }
                if e == (key, pid) {
                    assert(after[j as int] == e);
                }
            }
            assert(after.to_set() =~= before.to_set().insert((key, pid)));
        }
    }

    fn futex_index_remove(&mut self, key: FutexKey, pid: Pid)
        requires
            old(self).wf(),
        ensures
            final(self).wf(),
            final(self).next_pid() == old(self).next_pid(),
            forall|q: Seq<(Pid, usize)>| #[trigger] final(self).state(q) == (ManagerState {
                blocked_futexes: old(self).state(q).blocked_futexes.remove((key, pid)),
                ..old(self).state(q)
            }),
    {
        let ghost before = self.blocked_futexes@;
        let mut j: usize = 0;
        while j < self.blocked_futexes.len() && !(self.blocked_futexes[j].0 == key && self.blocked_futexes[j].1 == pid)
            invariant
                j <= before.len(),
                self.blocked_futexes@ == before,
                forall|k: int| 0 <= k < j ==> #[trigger] before[k] != (key, pid),
            decreases before.len() - j,
        {
            j = j + 1;
        }
        if j == self.blocked_futexes.len() {
            assert forall|e: (FutexKey, Pid)| before.to_set().remove((key, pid)).contains(e) == before.to_set().contains(e) by {
                if e == (key, pid) && before.to_set().contains(e) {
                    let b = choose|b: int| 0 <= b < before.len() && before[b] == e;
                    assert(before[b] != (key, pid));
                }
            }
            assert(before.to_set().remove((key, pid)) =~= before.to_set());
            return;
        }
        assert(before[j as int] == (key, pid));
        self.blocked_futexes.remove(j);
        proof {
            let after = self.blocked_futexes@;
            assert(after =~= before.take(j as int) + before.skip(j + 1));
            assert forall|a: int, b: int| 0 <= a < b < after.len() implies after[a].1 <= after[b].1
                && after[a] != after[b] by {
                let ia = if a < j { a } else { a + 1 };
                let ib = if b < j { b } else { b + 1 };
                assert(after[a] == before[ia] && after[b] == before[ib]);
            }
            assert forall|e: (FutexKey, Pid)| after.to_set().contains(e) == before.to_set().remove((key, pid)).contains(e) by {
                if after.to_set().contains(e) {
                    let a = choose|a: int| 0 <= a < after.len() && after[a] == e;
                    let ia = if a < j { a } else { a + 1 };
                    assert(before[ia] == e);
                    assert(ia != j);
                }
                if before.to_set().remove((key, pid)).contains(e) {
                    let b = choose|b: int| 0 <= b < before.len() && before[b] == e;
                    assert(b != j);
                    let ab = if b < j { b } else { b - 1 };
                    assert(after[ab] == e);
                }
            }
            assert(after.to_set() =~= before.to_set().remove((key, pid)));
        }
    }

    /// Adds a task entering `state` to the indexes; see `spec_track`.
    fn track_blocked_process(&mut self, pid: Pid, state: ProcessState)
        requires
            old(self).wf(),
        ensures
            final(self).wf(),
            final(self).next_pid() == old(self).next_pid(),
            forall|q: Seq<(Pid, usize)>| #[trigger] final(self).state(q) == spec_track(old(self).state(q), pid, state),
    {
        match state {
            ProcessState::Blocked(block) => match block {
                ProcessBlock::File { .. } => {
                    self.blocked_files.insert(pid);
                },
                ProcessBlock::Poll { deadline_nanos } => {
                    self.blocked_files.insert(pid);
                    match deadline_nanos {
                        Some(d) => self.add_timer_waiter(d, pid),
                        None => {},
                    }
                },
                ProcessBlock::Timer { target_nanos, .. } => {
                    self.add_timer_waiter(target_nanos, pid);
                },
                ProcessBlock::Futex { key, deadline_nanos, .. } => {
                    self.futex_index_insert(key, pid);
                    match deadline_nanos {
                        Some(d) => self.add_timer_waiter(d, pid),
                        None => {},
                    }
                },
                _ => {},
            },
            _ => {},
        }
    }

    /// Takes a task leaving `state` off the indexes; see `spec_untrack`.
    fn untrack_blocked_process(&mut self, pid: Pid, state: ProcessState)
        requires
            old(self).wf(),
        ensures
            final(self).wf(),
            final(self).next_pid() == old(self).next_pid(),
            forall|q: Seq<(Pid, usize)>| #[trigger] final(self).state(q) == spec_untrack(old(self).state(q), pid, state),
    {
        match state {
            ProcessState::Blocked(block) => match block {
                ProcessBlock::File { .. } => {
                    self.blocked_files.remove(&pid);
                },
                ProcessBlock::Poll { deadline_nanos } => {
                    self.blocked_files.remove(&pid);
                    match deadline_nanos {
                        Some(d) => self.remove_timer_waiter(d, pid),
                        None => {},
                    }
                },
                ProcessBlock::Timer { target_nanos, .. } => {
                    self.remove_timer_waiter(target_nanos, pid);
                },
                ProcessBlock::Futex { key, deadline_nanos, .. } => {
                    self.futex_index_remove(key, pid);
                    match deadline_nanos {
                        Some(d) => self.remove_timer_waiter(d, pid),
                        None => {},
                    }
                },
                _ => {},
            },
            _ => {},
        }
    }

    /// Wakes a blocked task with `result`; see `spec_wake_with_result`.
    pub fn wake_process_with_result(&mut self, pid: Pid, result: BlockResult, runnable: &mut Vec<(Pid, usize)>)
        requires
            old(self).wf(),
        ensures
            final(self).wf(),
            final(self).next_pid() == old(self).next_pid(),
            final(self).state(final(runnable)@) == spec_wake_with_result(old(self).state(old(runnable)@), pid, result),
    {
        let t = match self.tasks.get(&pid) {
            Some(t) => *t,
            None => return,
        };
        match t.state {
            ProcessState::Blocked(_) => {},
            _ => return,
        }
        self.untrack_blocked_process(pid, t.state);
        proof {
            assert(self.state(runnable@) == spec_untrack(old(self).state(runnable@), pid, t.state));
            lemma_untrack_keeps(old(self).state(runnable@), pid, t.state);
        }
        self.tasks.insert(pid, TaskEntry { wake_result: Some(result), state: ProcessState::Runnable, ..t });
        runnable.push((pid, t.assigned_cpu));
    }
}


proof fn lemma_table_dom<T>(s: Seq<(Pid, T)>)
    ensures
        table_map(s).dom() == pids_of(s).to_set(),
{
    assert(table_map(s).dom() =~= pids_of(s).to_set());
}

proof fn lemma_table_at<T>(s: Seq<(Pid, T)>, i: int)
    requires
        ascending(pids_of(s)),
        0 <= i < s.len(),
    ensures
        table_map(s).contains_key(s[i].0),
        table_map(s)[s[i].0] == s[i].1,
{
    let ps = pids_of(s);
    assert(ps[i] == s[i].0);
    assert(ps.contains(s[i].0));
    let k = ps.index_of(s[i].0);
    assert(0 <= k < ps.len() && ps[k] == s[i].0);
    if k < i {
        assert(ps[k] < ps[i]);
    } else if k > i {
        assert(ps[i] < ps[k]);
    }
}

proof fn lemma_table_update<T>(s: Seq<(Pid, T)>, i: int, v: T)
    requires
        ascending(pids_of(s)),
        0 <= i < s.len(),
    ensures
        pids_of(s.update(i, (s[i].0, v))) == pids_of(s),
        table_map(s.update(i, (s[i].0, v))) == table_map(s).insert(s[i].0, v),
{
    let t = s.update(i, (s[i].0, v));
    assert(pids_of(t) =~= pids_of(s));
    lemma_table_at(s, i);
    assert forall|p: Pid| #[trigger] table_map(t).contains_key(p) implies table_map(t)[p] == table_map(s).insert(s[i].0, v)[p] by {
        assert(pids_of(t).contains(p));
        let k = pids_of(t).index_of(p);
        assert(0 <= k < t.len() && pids_of(t)[k] == p);
        lemma_table_at(t, k);
        if k != i {
            lemma_table_at(s, k);
            assert(t[k] == s[k]);
            if k < i {
                assert(pids_of(s)[k] < pids_of(s)[i]);
            } else {
                assert(pids_of(s)[i] < pids_of(s)[k]);
            }
        }
    }
    lemma_table_dom(t);
    lemma_table_dom(s);
    assert(table_map(t).dom() =~= table_map(s).insert(s[i].0, v).dom());
    assert(table_map(t) =~= table_map(s).insert(s[i].0, v));
}

proof fn lemma_table_insert<T>(s: Seq<(Pid, T)>, j: int, p: Pid, v: T)
    requires
        ascending(pids_of(s)),
        0 <= j <= s.len(),
        forall|k: int| 0 <= k < j ==> s[k].0 < p,
        forall|k: int| j <= k < s.len() ==> s[k].0 > p,
    ensures
        ascending(pids_of(s.insert(j, (p, v)))),
        table_map(s.insert(j, (p, v))) == table_map(s).insert(p, v),
{
    let t = s.insert(j, (p, v));
    assert forall|a: int, b: int| 0 <= a < b < t.len() implies pids_of(t)[a] < pids_of(t)[b] by {
        if b < j {
            assert(t[a] == s[a] && t[b] == s[b]);
            assert(pids_of(s)[a] < pids_of(s)[b]);
        } else if b == j {
            assert(t[a] == s[a]);
        } else if a == j {
            assert(t[b] == s[b - 1]);
        } else if a < j {
            assert(t[a] == s[a] && t[b] == s[b - 1]);
        } else {
            assert(t[a] == s[a - 1] && t[b] == s[b - 1]);
            assert(pids_of(s)[a - 1] < pids_of(s)[b - 1]);
        }
    }
    lemma_table_dom(t);
    lemma_table_dom(s);
    assert forall|q: Pid| pids_of(t).to_set().contains(q) == pids_of(s).to_set().insert(p).contains(q) by {
        if pids_of(t).to_set().contains(q) {
            let a = choose|a: int| 0 <= a < pids_of(t).len() && pids_of(t)[a] == q;
            if a < j {
                assert(pids_of(s)[a] == q);
            } else if a > j {
                assert(pids_of(s)[a - 1] == q);
            }
        }
        if pids_of(s).to_set().contains(q) {
            let b = choose|b: int| 0 <= b < pids_of(s).len() && pids_of(s)[b] == q;
            if b < j {
                assert(pids_of(t)[b] == q);
            } else {
                assert(pids_of(t)[b + 1] == q);
            }
        }
        if q == p {
            assert(pids_of(t)[j] == q);
        }
    }
    assert forall|q: Pid| #[trigger] table_map(t).contains_key(q) implies table_map(t)[q] == table_map(s).insert(p, v)[q] by {
        let k = pids_of(t).index_of(q);
        lemma_table_at(t, k);
        if k < j {
            assert(t[k] == s[k]);
            lemma_table_at(s, k);
        } else if k > j {
            assert(t[k] == s[k - 1]);
            lemma_table_at(s, k - 1);
        }
    }
    assert(table_map(t) =~= table_map(s).insert(p, v));
}

proof fn lemma_table_remove<T>(s: Seq<(Pid, T)>, i: int)
    requires
        ascending(pids_of(s)),
        0 <= i < s.len(),
    ensures
        ascending(pids_of(s.remove(i))),
        table_map(s.remove(i)) == table_map(s).remove(s[i].0),
{
    let t = s.remove(i);
    let p = s[i].0;
    assert forall|a: int, b: int| 0 <= a < b < t.len() implies pids_of(t)[a] < pids_of(t)[b] by {
        let ia = if a < i { a } else { a + 1 };
        let ib = if b < i { b } else { b + 1 };
        assert(t[a] == s[ia] && t[b] == s[ib]);
        assert(pids_of(s)[ia] < pids_of(s)[ib]);
    }
    lemma_table_dom(t);
    lemma_table_dom(s);
    assert forall|q: Pid| pids_of(t).to_set().contains(q) == pids_of(s).to_set().remove(p).contains(q) by {
        if pids_of(t).to_set().contains(q) {
            let a = choose|a: int| 0 <= a < pids_of(t).len() && pids_of(t)[a] == q;
            let ia = if a < i { a } else { a + 1 };
            assert(pids_of(s)[ia] == q);
            if ia < i {
                assert(pids_of(s)[ia] < pids_of(s)[i]);
            } else {
                assert(pids_of(s)[i] < pids_of(s)[ia]);
            }
        }
        if pids_of(s).to_set().remove(p).contains(q) {
            let b = choose|b: int| 0 <= b < pids_of(s).len() && pids_of(s)[b] == q;
            assert(b != i);
            let ab = if b < i { b } else { b - 1 };
            assert(pids_of(t)[ab] == q);
        }
    }
    assert forall|q: Pid| #[trigger] table_map(t).contains_key(q) implies table_map(t)[q] == table_map(s).remove(p)[q] by {
        let k = pids_of(t).index_of(q);
        lemma_table_at(t, k);
        let ik = if k < i { k } else { k + 1 };
        assert(t[k] == s[ik]);
        lemma_table_at(s, ik);
    }
    assert(table_map(t) =~= table_map(s).remove(p));
}

impl ProcessManager {
    fn armed_position(&self, pid: Pid) -> (r: (usize, bool))
        requires
            self.wf(),
        ensures
            r.0 <= self.armed_futex_waits@.len(),
            r.1 ==> r.0 < self.armed_futex_waits@.len() && self.armed_futex_waits@[r.0 as int].0 == pid,
            !r.1 ==> forall|k: int| 0 <= k < r.0 ==> self.armed_futex_waits@[k].0 < pid,
            !r.1 ==> forall|k: int| r.0 <= k < self.armed_futex_waits@.len() ==> self.armed_futex_waits@[k].0 > pid,
    {
        let ghost s = self.armed_futex_waits@;
        let mut j: usize = 0;
        while j < self.armed_futex_waits.len() && self.armed_futex_waits[j].0 < pid
            invariant
                j <= s.len(),
                self.armed_futex_waits@ == s,
                ascending(pids_of(s)),
                forall|k: int| 0 <= k < j ==> s[k].0 < pid,
            decreases s.len() - j,
        {
            j = j + 1;
        }
        if j < self.armed_futex_waits.len() && self.armed_futex_waits[j].0 == pid {
            return (j, true);
        }
        proof {
            assert forall|k: int| j <= k < s.len() implies s[k].0 > pid by {
                assert(s[j as int].0 >= pid);
                assert(s[j as int].0 != pid);
                if k > j {
                    assert(pids_of(s)[j as int] < pids_of(s)[k]);
                }
            }
        }
        (j, false)
    }

    /// A running task announces a futex wait on `key` with `bitset` (replacing an earlier
    /// one); a wake before it blocks is remembered.
    pub fn arm_futex_wait(&mut self, pid: Pid, key: FutexKey, bitset: u32)
        requires
            old(self).wf(),
        ensures
            final(self).wf(),
            final(self).next_pid() == old(self).next_pid(),
            forall|q: Seq<(Pid, usize)>| #[trigger] final(self).state(q) == (ManagerState {
                armed: old(self).state(q).armed.insert(pid, ArmedFutexWait { key, bitset, raced_wake: false }),
                ..old(self).state(q)
            }),
    {
        let w = ArmedFutexWait { key, bitset, raced_wake: false };
        let (j, found) = self.armed_position(pid);
        let ghost s = self.armed_futex_waits@;
        if found {
            self.armed_futex_waits.set(j, (pid, w));
            proof {
                lemma_table_update(s, j as int, w);
                assert(self.armed_futex_waits@ == s.update(j as int, (s[j as int].0, w)));
            }
        } else {
            self.armed_futex_waits.insert(j, (pid, w));
            proof {
                lemma_table_insert(s, j as int, pid, w);
            }
        }
    }

    /// The task's armed futex wait, if any, is dropped.
    pub fn disarm_futex_wait(&mut self, pid: Pid)
        requires
            old(self).wf(),
        ensures
            final(self).wf(),
            final(self).next_pid() == old(self).next_pid(),
            forall|q: Seq<(Pid, usize)>| #[trigger] final(self).state(q) == (ManagerState {
                armed: old(self).state(q).armed.remove(pid),
                ..old(self).state(q)
            }),
    {
        let _ = self.take_armed_futex_wait(pid);
    }

    /// Takes the task's armed futex wait out of the table.
    fn take_armed_futex_wait(&mut self, pid: Pid) -> (r: Option<ArmedFutexWait>)
        requires
            old(self).wf(),
        ensures
            final(self).wf(),
            final(self).next_pid() == old(self).next_pid(),
            r == (if old(self).state(Seq::empty()).armed.contains_key(pid) {
                Some(old(self).state(Seq::empty()).armed[pid])
            } else {
                None
            }),
            forall|q: Seq<(Pid, usize)>| #[trigger] final(self).state(q) == (ManagerState {
                armed: old(self).state(q).armed.remove(pid),
                ..old(self).state(q)
            }),
    {
        let (j, found) = self.armed_position(pid);
        let ghost s = self.armed_futex_waits@;
        if found {
            let e = self.armed_futex_waits.remove(j);
            proof {
                lemma_table_at(s, j as int);
                lemma_table_remove(s, j as int);
            }
            Some(e.1)
        } else {
            proof {
                lemma_table_dom(s);
                assert(!pids_of(s).to_set().contains(pid)) by {
                    if pids_of(s).to_set().contains(pid) {
                        let k = choose|k: int| 0 <= k < pids_of(s).len() && pids_of(s)[k] == pid;
                        assert(s[k].0 == pid);
                    }
                }
                assert(table_map(s).remove(pid) =~= table_map(s));
            }
            None
        }
    }

    /// Marks up to `count` armed waits on `key` matching `bitset` as woken, by pid; returns
    /// how many. See `spec_wake_armed`.
    fn wake_armed_futex_waits(&mut self, key: FutexKey, bitset: u32, count: usize) -> (r: usize)
        requires
            old(self).wf(),
        ensures
            final(self).wf(),
            final(self).next_pid() == old(self).next_pid(),
            ({
                let (m, n) = spec_wake_armed(old(self).state(Seq::empty()).armed, key, bitset, count as int);
                &&& r == n
                &&& forall|q: Seq<(Pid, usize)>| #[trigger] final(self).state(q) == (ManagerState {
                    armed: m,
                    ..old(self).state(q)
                })
            }),
    {
        let ghost s0 = self.armed_futex_waits@;
        let ghost order = pids_of(s0);
        proof {
            lemma_table_dom(s0);
            lemma_in_order(order);
        }
        let ghost target = spec_wake_armed_from(table_map(s0), order, 0, key, bitset, count as int);
        let mut entries: Vec<(Pid, ArmedFutexWait)> = Vec::new();
        std::mem::swap(&mut entries, &mut self.armed_futex_waits);
        let mut woke: usize = 0;
        let mut i: usize = 0;
        while i < entries.len() && woke < count
            invariant
                i <= order.len(),
                woke <= count,
                order.len() == entries@.len(),
                pids_of(entries@) == order,
                ascending(order),
                spec_wake_armed_from(table_map(entries@), order, i as int, key, bitset, (count - woke) as int)
                    == (target.0, target.1 - woke),
            decreases order.len() - i,
        {
            let ghost s = entries@;
            let e = entries[i];
            proof {
                lemma_table_at(s, i as int);
                assert(order[i as int] == e.0);
            }
            if e.1.key == key && e.1.bitset & bitset != 0 && !e.1.raced_wake {
                let marked = ArmedFutexWait { raced_wake: true, ..e.1 };
                entries.set(i, (e.0, marked));
                proof {
                    lemma_table_update(s, i as int, marked);
                    assert(entries@ == s.update(i as int, (s[i as int].0, marked)));
                }
                woke = woke + 1;
            }
            i = i + 1;
        }
        self.armed_futex_waits = entries;
        woke
    }

    /// Moves up to `count` armed waits on `from` matching `bitset` to `to`, by pid; returns
    /// how many. See `spec_requeue_armed`.
    fn requeue_armed_futex_waits(&mut self, from: FutexKey, to: FutexKey, count: usize, bitset: u32) -> (r: usize)
        requires
            old(self).wf(),
        ensures
            final(self).wf(),
            final(self).next_pid() == old(self).next_pid(),
            ({
                let (m, n) = spec_requeue_armed(old(self).state(Seq::empty()).armed, from, to, bitset, count as int);
                &&& r == n
                &&& forall|q: Seq<(Pid, usize)>| #[trigger] final(self).state(q) == (ManagerState {
                    armed: m,
                    ..old(self).state(q)
                })
            }),
    {
        let ghost s0 = self.armed_futex_waits@;
        let ghost order = pids_of(s0);
        proof {
            lemma_table_dom(s0);
            lemma_in_order(order);
        }
        let ghost target = spec_requeue_armed_from(table_map(s0), order, 0, from, to, bitset, count as int);
        let mut entries: Vec<(Pid, ArmedFutexWait)> = Vec::new();
        std::mem::swap(&mut entries, &mut self.armed_futex_waits);
        let mut moved: usize = 0;
        let mut i: usize = 0;
        while i < entries.len() && moved < count
            invariant
                i <= order.len(),
                moved <= count,
                order.len() == entries@.len(),
                pids_of(entries@) == order,
                ascending(order),
                spec_requeue_armed_from(table_map(entries@), order, i as int, from, to, bitset, (count - moved) as int)
                    == (target.0, target.1 - moved),
            decreases order.len() - i,
        {
            let ghost s = entries@;
            let e = entries[i];
            proof {
                lemma_table_at(s, i as int);
                assert(order[i as int] == e.0);
            }
            if e.1.key == from && e.1.bitset & bitset != 0 && !e.1.raced_wake {
                let requeued = ArmedFutexWait { key: to, ..e.1 };
                entries.set(i, (e.0, requeued));
                proof {
                    lemma_table_update(s, i as int, requeued);
                    assert(entries@ == s.update(i as int, (s[i as int].0, requeued)));
                }
                moved = moved + 1;
            }
            i = i + 1;
        }
        self.armed_futex_waits = entries;
        moved
    }
}


/// The tasks waiting on futex `key`.
pub open spec fn futex_waiters(s: Set<(FutexKey, Pid)>, key: FutexKey) -> Set<Pid> {
    Set::new(|p: Pid| s.contains((key, p)))
}

/// Whether a task is blocked on futex `key` with a bitset meeting `bitset`.
pub open spec fn futex_wait_matches(t: TaskEntry, key: FutexKey, bitset: u32) -> bool {
    t.state matches ProcessState::Blocked(ProcessBlock::Futex { key: k, bitset: b, .. }) && k == key && b
        & bitset != 0
}

/// Wakes up to `count` of the tasks of `order`, from position `i`, that are blocked on
/// `key` with a matching bitset; with how many were woken.
pub open spec fn spec_wake_blocked_from(
    st: ManagerState,
    order: Seq<Pid>,
    i: int,
    key: FutexKey,
    bitset: u32,
    count: int,
) -> (ManagerState, int)
    decreases order.len() - i,
{
    if i >= order.len() || i < 0 || count <= 0 {
        (st, 0)
    } else {
        let p = order[i];
        if st.tasks.contains_key(p) && futex_wait_matches(st.tasks[p], key, bitset) {
            let (st2, n) = spec_wake_blocked_from(
                spec_wake_with_result(st, p, BlockResult::Futex { woke: true, timed_out: false }),
                order,
                i + 1,
                key,
                bitset,
                count - 1,
            );
            (st2, n + 1)
        } else {
            spec_wake_blocked_from(st, order, i + 1, key, bitset, count)
        }
    }
}

/// `FUTEX_WAKE`: the armed waits on `key` are reached first (`spec_wake_armed`); then, while
/// fewer than `count` were reached, the tasks blocked on `key`, by pid, are woken with
/// `Futex { woke: true }`. With the number reached.
pub open spec fn spec_wake_futex(st: ManagerState, key: FutexKey, bitset: u32, count: int) -> (ManagerState, int) {
    let (armed, n) = spec_wake_armed(st.armed, key, bitset, count);
    let st1 = ManagerState { armed, ..st };
    if n >= count {
        (st1, n)
    } else {
        let (st2, m) = spec_wake_blocked_from(
            st1,
            in_order(futex_waiters(st1.blocked_futexes, key)),
            0,
            key,
            bitset,
            count - n,
        );
        (st2, n + m)
    }
}

/// A task blocked on a futex moves to `to`, keeping its bitset and deadline.
pub open spec fn spec_requeue_one(st: ManagerState, p: Pid, to: FutexKey) -> ManagerState {
    let t = st.tasks[p];
    let st1 = spec_untrack(st, p, t.state);
    let ns = match t.state {
        ProcessState::Blocked(ProcessBlock::Futex { bitset, deadline_nanos, .. }) => ProcessState::Blocked(
            ProcessBlock::Futex { key: to, bitset, deadline_nanos },
        ),
        _ => t.state,
    };
    spec_track(ManagerState { tasks: st1.tasks.insert(p, TaskEntry { state: ns, ..t }), ..st1 }, p, ns)
}

/// Moves up to `count` of the tasks of `order`, from position `i`, blocked on `from` with a
/// matching bitset, to `to`; with how many moved.
pub open spec fn spec_requeue_blocked_from(
    st: ManagerState,
    order: Seq<Pid>,
    i: int,
    from: FutexKey,
    to: FutexKey,
    bitset: u32,
    count: int,
) -> (ManagerState, int)
    decreases order.len() - i,
{
    if i >= order.len() || i < 0 || count <= 0 {
        (st, 0)
    } else {
        let p = order[i];
        if st.tasks.contains_key(p) && futex_wait_matches(st.tasks[p], from, bitset) {
            let (st2, n) = spec_requeue_blocked_from(
                spec_requeue_one(st, p, to),
                order,
                i + 1,
                from,
                to,
                bitset,
                count - 1,
            );
            (st2, n + 1)
        } else {
            spec_requeue_blocked_from(st, order, i + 1, from, to, bitset, count)
        }
    }
}

/// `FUTEX_REQUEUE`: up to `wake_count` waiters on `from` are woken (`spec_wake_futex`); then
/// up to `requeue_count` armed waits and blocked tasks on `from` move to `to`. With the
/// number woken.
pub open spec fn spec_requeue_futex(
    st: ManagerState,
    from: FutexKey,
    to: FutexKey,
    wake_count: int,
    requeue_count: int,
    bitset: u32,
) -> (ManagerState, int) {
    let (st1, woke) = spec_wake_futex(st, from, bitset, wake_count);
    let (armed, moved) = spec_requeue_armed(st1.armed, from, to, bitset, requeue_count);
    let st2 = ManagerState { armed, ..st1 };
    let (st3, _) = spec_requeue_blocked_from(
        st2,
        in_order(futex_waiters(st2.blocked_futexes, from)),
        0,
        from,
        to,
        bitset,
        requeue_count - moved,
    );
    (st3, woke)
}

impl ProcessManager {
    /// The tasks waiting on futex `key`, by pid.
    fn futex_waiters_of(&self, key: FutexKey) -> (r: Vec<Pid>)
        requires
            self.wf(),
        ensures
            ascending(r@),
            r@.to_set() == futex_waiters(self.state(Seq::empty()).blocked_futexes, key),
    {
        let ghost s = self.blocked_futexes@;
        let mut r: Vec<Pid> = Vec::new();
        let mut i: usize = 0;
        while i < self.blocked_futexes.len()
            invariant
                i <= s.len(),
                self.blocked_futexes@ == s,
                forall|a: int, b: int| 0 <= a < b < s.len() ==> s[a].1 <= s[b].1 && s[a] != s[b],
                ascending(r@),
                forall|a: int| 0 <= a < r@.len() ==> exists|k: int| 0 <= k < i && s[k] == (key, #[trigger] r@[a]),
                forall|k: int| 0 <= k < i && #[trigger] s[k].0 == key ==> r@.contains(s[k].1),
                forall|a: int, k: int| 0 <= a < r@.len() && i <= k < s.len() && s[k].0 == key ==> #[trigger] r@[a] < #[trigger] s[k].1,
            decreases s.len() - i,
        {
            let e = self.blocked_futexes[i];
            if e.0 == key {
                proof {
                    assert forall|k: int| i < k < s.len() && s[k].0 == key implies e.1 < #[trigger] s[k].1 by {
                        assert(s[i as int].1 <= s[k].1);
                        assert(s[i as int] != s[k]);
                    }
                }
                let ghost r0 = r@;
                r.push(e.1);
                proof {
                    assert(r@[r@.len() - 1] == e.1);
                    assert forall|k: int| 0 <= k < i + 1 && #[trigger] s[k].0 == key implies r@.contains(s[k].1) by {
                        if k == i {
                            assert(r@[r@.len() - 1] == s[k].1);
                        } else {
                            assert(r0.contains(s[k].1));
                            let a = choose|a: int| 0 <= a < r0.len() && r0[a] == s[k].1;
                            assert(r@[a] == s[k].1);
                        }
                    }
                    assert forall|a: int| 0 <= a < r@.len() implies exists|k: int| 0 <= k < i + 1 && s[k] == (key, #[trigger] r@[a]) by {
                        if a == r@.len() - 1 {
                            assert(s[i as int] == (key, r@[a]));
                        } else {
                            let k = choose|k: int| 0 <= k < i && s[k] == (key, r@[a]);
                            assert(s[k] == (key, r@[a]));
                        }
                    }
                }
            }
            i = i + 1;
        }
        proof {
            assert forall|p: Pid| r@.to_set().contains(p) == futex_waiters(s.to_set(), key).contains(p) by {
                if r@.to_set().contains(p) {
                    let a = choose|a: int| 0 <= a < r@.len() && r@[a] == p;
                    let k = choose|k: int| 0 <= k < i && s[k] == (key, r@[a]);
                    assert(s.to_set().contains((key, p)));
                }
                if s.to_set().contains((key, p)) {
                    let k = choose|k: int| 0 <= k < s.len() && s[k] == (key, p);
                    assert(s[k].0 == key);
                    assert(r@.contains(p));
                }
            }
            assert(r@.to_set() =~= futex_waiters(s.to_set(), key));
        }
        r
    }

    /// `FUTEX_WAKE` on `key`; see `spec_wake_futex`.
    pub fn wake_futex(&mut self, key: FutexKey, bitset: u32, count: usize, runnable: &mut Vec<(Pid, usize)>) -> (r: usize)
        requires
            old(self).wf(),
        ensures
            final(self).wf(),
            final(self).next_pid() == old(self).next_pid(),
            (final(self).state(final(runnable)@), r as int) == spec_wake_futex(old(self).state(old(runnable)@), key, bitset, count as int),
    {
        let mut woke = self.wake_armed_futex_waits(key, bitset, count);
        if woke >= count {
            return woke;
        }
        let ghost st1 = self.state(runnable@);
        let waiters = self.futex_waiters_of(key);
        let ghost order = waiters@;
        proof {
            lemma_in_order(order);
        }
        let ghost n0 = woke;
        let ghost target = spec_wake_blocked_from(st1, order, 0, key, bitset, count - n0);
        let mut i: usize = 0;
        while i < waiters.len() && woke < count
            invariant
                i <= order.len(),
                waiters@ == order,
                n0 <= woke <= count,
                self.wf(),
                self.next_pid() == old(self).next_pid(),
                spec_wake_blocked_from(self.state(runnable@), order, i as int, key, bitset, (count - woke) as int)
                    == (target.0, target.1 - (woke - n0)),
            decreases order.len() - i,
        {
            let pid = waiters[i];
            match self.tasks.get(&pid) {
                Some(t) => {
                    let matches = match t.state {
                        ProcessState::Blocked(ProcessBlock::Futex { key: k, bitset: b, .. }) => k == key && b & bitset != 0,
                        _ => false,
                    };
                    if matches {
                        self.wake_process_with_result(pid, BlockResult::Futex { woke: true, timed_out: false }, runnable);
                        woke = woke + 1;
                    }
                },
                None => {},
            }
            i = i + 1;
        }
        woke
    }

    /// `FUTEX_REQUEUE` from `from` to `to`; see `spec_requeue_futex`.
    pub fn requeue_futex(
        &mut self,
        from: FutexKey,
        to: FutexKey,
        wake_count: usize,
        requeue_count: usize,
        bitset: u32,
        runnable: &mut Vec<(Pid, usize)>,
    ) -> (r: usize)
        requires
            old(self).wf(),
        ensures
            final(self).wf(),
            final(self).next_pid() == old(self).next_pid(),
            (final(self).state(final(runnable)@), r as int) == spec_requeue_futex(
                old(self).state(old(runnable)@),
                from,
                to,
                wake_count as int,
                requeue_count as int,
                bitset,
            ),
    {
        let woke = self.wake_futex(from, bitset, wake_count, runnable);
        let ghost armed_before = self.state(Seq::empty()).armed;
        let mut moved = self.requeue_armed_futex_waits(from, to, requeue_count, bitset);
        proof {
            lemma_requeue_armed_bound(armed_before, in_order(armed_before.dom()), 0, from, to, bitset, requeue_count as int);
        }
        let ghost st2 = self.state(runnable@);
        let waiters = self.futex_waiters_of(from);
        let ghost order = waiters@;
        proof {
            lemma_in_order(order);
        }
        let ghost m0 = moved;
        let ghost target = spec_requeue_blocked_from(st2, order, 0, from, to, bitset, requeue_count - m0);
        let mut i: usize = 0;
        while i < waiters.len() && moved < requeue_count
            invariant
                i <= order.len(),
                waiters@ == order,
                m0 <= moved <= requeue_count,
                self.wf(),
                self.next_pid() == old(self).next_pid(),
                spec_requeue_blocked_from(self.state(runnable@), order, i as int, from, to, bitset, (requeue_count - moved) as int)
                    == (target.0, target.1 - (moved - m0)),
            decreases order.len() - i,
        {
            let pid = waiters[i];
            match self.tasks.get(&pid) {
                Some(t) => {
                    let t = *t;
                    match t.state {
                        ProcessState::Blocked(ProcessBlock::Futex { key: k, bitset: b, deadline_nanos }) => {
                            if k == from && b & bitset != 0 {
                                let ghost before = self.state(runnable@);
                                self.untrack_blocked_process(pid, t.state);
                                let ghost mid1 = self.state(runnable@);
                                proof {
                                    assert(mid1 == spec_untrack(before, pid, t.state));
                                    lemma_untrack_keeps(before, pid, t.state);
                                }
                                let ns = ProcessState::Blocked(ProcessBlock::Futex { key: to, bitset: b, deadline_nanos });
                                self.tasks.insert(pid, TaskEntry { state: ns, ..t });
                                let ghost mid2 = self.state(runnable@);
                                assert(mid2 == (ManagerState { tasks: mid1.tasks.insert(pid, TaskEntry { state: ns, ..t }), ..mid1 }));
                                self.track_blocked_process(pid, ns);
                                assert(self.state(runnable@) == spec_track(mid2, pid, ns));
                                assert(self.state(runnable@) == spec_requeue_one(before, pid, to));
                                moved = moved + 1;
                            }
                        },
                        _ => {},
                    }
                },
                None => {},
            }
            i = i + 1;
        }
        woke
    }
}


/// The tasks with a deadline at `d` in the timer index.
pub open spec fn timer_waiters(s: Set<(u64, u64)>, d: u64) -> Set<Pid> {
    Set::new(|p: Pid| s.contains((d, p as u64)))
}

/// What a task blocked with a deadline is woken with when it passes: a sleep completes, a
/// futex or poll wait times out; `None` for any other state.
pub open spec fn timer_wake_result(t: TaskEntry) -> Option<BlockResult> {
    match t.state {
        ProcessState::Blocked(ProcessBlock::Timer { rmtp, flags, .. }) => Some(
            BlockResult::Timer {
                completed: true,
                remaining_nanos: 0,
                rmtp,
                is_absolute: flags & TIMER_ABSTIME != 0,
            },
        ),
        ProcessState::Blocked(ProcessBlock::Futex { .. }) => Some(BlockResult::Futex { woke: false, timed_out: true }),
        ProcessState::Blocked(ProcessBlock::Poll { .. }) => Some(BlockResult::Poll { timed_out: true }),
        _ => None,
    }
}

/// Wakes the tasks of `order`, from position `i`, as `timer_wake_result` says.
pub open spec fn spec_wake_timer_waiters(st: ManagerState, order: Seq<Pid>, i: int) -> ManagerState
    decreases order.len() - i,
{
    if i >= order.len() || i < 0 {
        st
    } else {
        let p = order[i];
        let st1 = if st.tasks.contains_key(p) && timer_wake_result(st.tasks[p]) is Some {
            spec_wake_with_result(st, p, timer_wake_result(st.tasks[p])->0)
        } else {
            st
        };
        spec_wake_timer_waiters(st1, order, i + 1)
    }
}

/// The deadlines passed at `now` are served earliest first: each one leaves the index and
/// its tasks are woken, by pid (`spec_wake_timer_waiters`); the cache ends at the earliest
/// deadline left.
pub open spec fn spec_wake_expired(st: ManagerState, now: u64) -> ManagerState
    decreases st.blocked_timers.len(),
{
    match first_deadline(st.blocked_timers) {
        None => ManagerState { next_timer_deadline: None, ..st },
        Some(d) => if d > now {
            ManagerState { next_timer_deadline: Some(d), ..st }
        } else {
            let st1 = ManagerState { blocked_timers: st.blocked_timers.filter(|e: (u64, u64)| e.0 != d), ..st };
            let st2 = spec_wake_timer_waiters(st1, in_order(timer_waiters(st.blocked_timers, d)), 0);
            if st2.blocked_timers.len() < st.blocked_timers.len() {
                spec_wake_expired(st2, now)
            } else {
                st2
            }
        },
    }
}

proof fn lemma_wake_shrinks_timers(st: ManagerState, pid: Pid, result: BlockResult)
    ensures
        spec_wake_with_result(st, pid, result).blocked_timers.subset_of(st.blocked_timers),
{
}

impl ProcessManager {
    /// Serves the timer deadlines passed at `current_nanos`; see `spec_wake_expired`.
    pub fn wake_expired_timers(&mut self, current_nanos: u64, runnable: &mut Vec<(Pid, usize)>)
        requires
            old(self).wf(),
        ensures
            final(self).wf(),
            final(self).next_pid() == old(self).next_pid(),
            final(self).state(final(runnable)@) == spec_wake_expired(old(self).state(old(runnable)@), current_nanos),
    {
        let ghost target = spec_wake_expired(self.state(runnable@), current_nanos);
        proof {
            self.blocked_timers.lemma_finite();
        }
        loop
            invariant
                self.wf(),
                self.next_pid() == old(self).next_pid(),
                self.blocked_timers@.finite(),
                spec_wake_expired(self.state(runnable@), current_nanos) == target,
            ensures
                self.wf(),
                self.next_pid() == old(self).next_pid(),
                self.state(runnable@) == target,
            decreases self.blocked_timers@.len(),
        {
            let ghost st0 = self.state(runnable@);
            let d = match self.blocked_timers.earliest() {
                None => {
                    self.next_timer_deadline_nanos = None;
                    break;
                },
                Some(d) => d,
            };
            if d > current_nanos {
                self.next_timer_deadline_nanos = Some(d);
                break;
            }
            assert(forall|e: (u64, u64)| st0.blocked_timers.contains(e) ==> e.1 <= u32::MAX);
            let ids = self.blocked_timers.take_deadline(d);
            let ghost st1 = self.state(runnable@);
            assert forall|a: int| 0 <= a < ids@.len() implies #[trigger] ids@[a] <= u32::MAX by {
                assert(ids@.to_set().contains(ids@[a]));
                assert(st0.blocked_timers.contains((d, ids@[a])));
            }
            proof {
                assert(st1.blocked_timers =~= st0.blocked_timers.filter(|e: (u64, u64)| e.0 != d));
                let id0 = choose|id: u64| st0.blocked_timers.contains((d, id));
                assert(st0.blocked_timers.contains((d, id0)));
                assert(!st1.blocked_timers.contains((d, id0)));
                assert(st1.blocked_timers.subset_of(st0.blocked_timers.remove((d, id0))));
                vstd::set_lib::lemma_len_subset(st1.blocked_timers, st0.blocked_timers.remove((d, id0)));
                vstd::set::axiom_set_remove_len(st0.blocked_timers, (d, id0));
            }
            let mut pids: Vec<Pid> = Vec::new();
            let mut k: usize = 0;
            while k < ids.len()
                invariant
                    k <= ids@.len(),
                    pids@.len() == k,
                    forall|a: int, b: int| 0 <= a < b < ids@.len() ==> ids@[a] < ids@[b],
                    forall|a: int| 0 <= a < ids@.len() ==> #[trigger] ids@[a] <= u32::MAX,
                    forall|a: int| 0 <= a < k ==> pids@[a] as u64 == #[trigger] ids@[a],
                decreases ids@.len() - k,
            {
                pids.push(ids[k] as Pid);
                k = k + 1;
            }
            proof {
                assert(ascending(pids@)) by {
                    assert forall|a: int, b: int| 0 <= a < b < pids@.len() implies pids@[a] < pids@[b] by {
                        assert(pids@[a] as u64 == ids@[a] && pids@[b] as u64 == ids@[b]);
                    }
                }
                assert forall|p: Pid| pids@.to_set().contains(p) == timer_waiters(st0.blocked_timers, d).contains(p) by {
                    if pids@.to_set().contains(p) {
                        let a = choose|a: int| 0 <= a < pids@.len() && pids@[a] == p;
                        assert(ids@[a] == p as u64);
                        assert(ids@.to_set().contains(p as u64));
                    }
                    if timer_waiters(st0.blocked_timers, d).contains(p) {
                        assert(ids@.to_set().contains(p as u64));
                        let a = choose|a: int| 0 <= a < ids@.len() && ids@[a] == p as u64;
                        assert(pids@[a] as u64 == p as u64);
                        assert(pids@[a] == p);
                    }
                }
                assert(pids@.to_set() =~= timer_waiters(st0.blocked_timers, d));
                lemma_in_order(pids@);
            }
            let mut i: usize = 0;
            while i < pids.len()
                invariant
                    i <= pids@.len(),
                    self.wf(),
                    self.next_pid() == old(self).next_pid(),
                    spec_wake_timer_waiters(self.state(runnable@), pids@, i as int) == spec_wake_timer_waiters(st1, pids@, 0),
                    self.state(runnable@).blocked_timers.subset_of(st1.blocked_timers),
                decreases pids@.len() - i,
            {
                let pid = pids[i];
                let ghost before = self.state(runnable@);
                match self.tasks.get(&pid) {
                    Some(t) => {
                        let result = match t.state {
                            ProcessState::Blocked(ProcessBlock::Timer { rmtp, flags, .. }) => Some(
                                BlockResult::Timer {
                                    completed: true,
                                    remaining_nanos: 0,
                                    rmtp,
                                    is_absolute: (flags & TIMER_ABSTIME) != 0,
                                },
                            ),
                            ProcessState::Blocked(ProcessBlock::Futex { .. }) => Some(
                                BlockResult::Futex { woke: false, timed_out: true },
                            ),
                            ProcessState::Blocked(ProcessBlock::Poll { .. }) => Some(BlockResult::Poll { timed_out: true }),
                            _ => None,
                        };
                        match result {
                            Some(res) => {
                                self.wake_process_with_result(pid, res, runnable);
                                proof {
                                    lemma_wake_shrinks_timers(before, pid, res);
                                }
                            },
                            None => {},
                        }
                    },
                    None => {},
                }
                i = i + 1;
            }
            proof {
                self.blocked_timers.lemma_finite();
                let st2 = self.state(runnable@);
                vstd::set_lib::lemma_len_subset(st2.blocked_timers, st1.blocked_timers);
                assert(first_deadline(st0.blocked_timers) == Some(d));
                assert(st1 == (ManagerState { blocked_timers: st0.blocked_timers.filter(|e: (u64, u64)| e.0 != d), ..st0 }));
                assert(spec_wake_expired(st0, current_nanos) == spec_wake_expired(st2, current_nanos));
            }
        }
    }
}


/// The second pids paired with `a`.
pub open spec fn seconds_of(s: Set<(Pid, Pid)>, a: Pid) -> Set<Pid> {
    Set::new(|p: Pid| s.contains((a, p)))
}

/// The first pids of the pairs.
pub open spec fn firsts_of(s: Set<(Pid, Pid)>) -> Set<Pid> {
    Set::new(|a: Pid| exists|p: Pid| s.contains((a, p)))
}

fn pair_position(v: &Vec<(Pid, Pid)>, x: (Pid, Pid)) -> (r: (usize, bool))
    requires
        pairs_ascending(v@),
    ensures
        r.0 <= v@.len(),
        r.1 ==> r.0 < v@.len() && v@[r.0 as int] == x,
        !r.1 ==> forall|k: int| 0 <= k < r.0 ==> pair_lt(v@[k], x),
        !r.1 ==> forall|k: int| r.0 <= k < v@.len() ==> pair_lt(x, v@[k]),
{
    let mut j: usize = 0;
    while j < v.len() && (v[j].0 < x.0 || (v[j].0 == x.0 && v[j].1 < x.1))
        invariant
            j <= v@.len(),
            pairs_ascending(v@),
            forall|k: int| 0 <= k < j ==> pair_lt(v@[k], x),
        decreases v@.len() - j,
    {
        j = j + 1;
    }
    if j < v.len() && v[j].0 == x.0 && v[j].1 == x.1 {
        return (j, true);
    }
    proof {
        assert forall|k: int| j <= k < v@.len() implies pair_lt(x, v@[k]) by {
            assert(!pair_lt(v@[j as int], x));
            assert(v@[j as int] != x);
            if k > j {
                assert(pair_lt(v@[j as int], v@[k]));
            }
        }
    }
    (j, false)
}

fn pair_insert(v: &mut Vec<(Pid, Pid)>, x: (Pid, Pid))
    requires
        pairs_ascending(old(v)@),
    ensures
        pairs_ascending(final(v)@),
        final(v)@.to_set() == old(v)@.to_set().insert(x),
{
    let (j, found) = pair_position(v, x);
    if found {
        assert(old(v)@.to_set().contains(x));
        assert(old(v)@.to_set().insert(x) =~= old(v)@.to_set());
        return;
    }
    let ghost before = v@;
    v.insert(j, x);
    proof {
        let after = v@;
        assert(after =~= before.take(j as int).push(x) + before.skip(j as int));
        assert forall|a: int, b: int| 0 <= a < b < after.len() implies pair_lt(after[a], after[b]) by {
            if b < j {
                assert(after[a] == before[a] && after[b] == before[b]);
            } else if b == j {
                assert(after[a] == before[a]);
            } else if a == j {
                assert(after[b] == before[b - 1]);
            } else if a < j {
                assert(after[a] == before[a] && after[b] == before[b - 1]);
                assert(pair_lt(before[a], x));
            } else {
                assert(after[a] == before[a - 1] && after[b] == before[b - 1]);
            }
        }
        assert forall|e: (Pid, Pid)| after.to_set().contains(e) == before.to_set().insert(x).contains(e) by {
            if after.to_set().contains(e) {
                let a = choose|a: int| 0 <= a < after.len() && after[a] == e;
                if a < j {
                    assert(before[a] == e);
                } else if a > j {
                    assert(before[a - 1] == e);
                }
            }
            if before.to_set().contains(e) {
                let b = choose|b: int| 0 <= b < before.len() && before[b] == e;
                if b < j {
                    assert(after[b] == e);
                } else {
                    assert(after[b + 1] == e);
                }
            }
            if e == x {
                assert(after[j as int] == e);
            }
        }
        assert(after.to_set() =~= before.to_set().insert(x));
    }
}

fn pair_remove(v: &mut Vec<(Pid, Pid)>, x: (Pid, Pid))
    requires
        pairs_ascending(old(v)@),
    ensures
        pairs_ascending(final(v)@),
        final(v)@.to_set() == old(v)@.to_set().remove(x),
{
    let (j, found) = pair_position(v, x);
    let ghost before = v@;
    if !found {
        assert forall|e: (Pid, Pid)| before.to_set().remove(x).contains(e) == before.to_set().contains(e) by {
            if e == x && before.to_set().contains(e) {
                let b = choose|b: int| 0 <= b < before.len() && before[b] == e;
                if b < j {
                    assert(pair_lt(before[b], x));
                } else {
                    assert(pair_lt(x, before[b]));
                }
            }
        }
        assert(before.to_set().remove(x) =~= before.to_set());
        return;
    }
    v.remove(j);
    proof {
        let after = v@;
        assert(after =~= before.take(j as int) + before.skip(j + 1));
        assert forall|a: int, b: int| 0 <= a < b < after.len() implies pair_lt(after[a], after[b]) by {
            let ia = if a < j { a } else { a + 1 };
            let ib = if b < j { b } else { b + 1 };
            assert(after[a] == before[ia] && after[b] == before[ib]);
        }
        assert forall|e: (Pid, Pid)| after.to_set().contains(e) == before.to_set().remove(x).contains(e) by {
            if after.to_set().contains(e) {
                let a = choose|a: int| 0 <= a < after.len() && after[a] == e;
                let ia = if a < j { a } else { a + 1 };
                assert(before[ia] == e);
                if ia < j {
                    assert(pair_lt(before[ia], before[j as int]));
                } else {
                    assert(pair_lt(before[j as int], before[ia]));
                }
            }
            if before.to_set().remove(x).contains(e) {
                let b = choose|b: int| 0 <= b < before.len() && before[b] == e;
                assert(b != j);
                let ab = if b < j { b } else { b - 1 };
                assert(after[ab] == e);
            }
        }
        assert(after.to_set() =~= before.to_set().remove(x));
    }
}

fn seconds_in_order(v: &Vec<(Pid, Pid)>, a: Pid) -> (r: Vec<Pid>)
    requires
        pairs_ascending(v@),
    ensures
        ascending(r@),
        r@.to_set() == seconds_of(v@.to_set(), a),
{
    let mut r: Vec<Pid> = Vec::new();
    let mut i: usize = 0;
    while i < v.len()
        invariant
            i <= v@.len(),
            pairs_ascending(v@),
            ascending(r@),
            forall|k: int| 0 <= k < r@.len() ==> v@.to_set().contains((a, #[trigger] r@[k])),
            forall|k: int| 0 <= k < i && #[trigger] v@[k].0 == a ==> r@.contains(v@[k].1),
            forall|k: int, m: int| 0 <= k < r@.len() && i <= m < v@.len() && v@[m].0 == a ==> #[trigger] r@[k] < #[trigger] v@[m].1,
        decreases v@.len() - i,
    {
        let e = v[i];
        if e.0 == a {
            proof {
                assert forall|m: int| i < m < v@.len() && v@[m].0 == a implies e.1 < #[trigger] v@[m].1 by {
                    assert(pair_lt(v@[i as int], v@[m]));
                }
            }
            let ghost r0 = r@;
            r.push(e.1);
            proof {
                assert(v@.to_set().contains(v@[i as int]));
                assert forall|k: int| 0 <= k < i + 1 && #[trigger] v@[k].0 == a implies r@.contains(v@[k].1) by {
                    if k == i {
                        assert(r@[r@.len() - 1] == v@[k].1);
                    } else {
                        assert(r0.contains(v@[k].1));
                        let t = choose|t: int| 0 <= t < r0.len() && r0[t] == v@[k].1;
                        assert(r@[t] == v@[k].1);
                    }
                }
            }
        }
        i = i + 1;
    }
    proof {
        assert forall|p: Pid| r@.to_set().contains(p) == seconds_of(v@.to_set(), a).contains(p) by {
            if r@.to_set().contains(p) {
                let k = choose|k: int| 0 <= k < r@.len() && r@[k] == p;
                assert(v@.to_set().contains((a, r@[k])));
            }
            if seconds_of(v@.to_set(), a).contains(p) {
                assert(v@.to_set().contains((a, p)));
                let k = choose|k: int| 0 <= k < v@.len() && v@[k] == (a, p);
                assert(v@[k].0 == a);
                assert(r@.contains(p));
            }
        }
        assert(r@.to_set() =~= seconds_of(v@.to_set(), a));
    }
    r
}

fn firsts_in_order(v: &Vec<(Pid, Pid)>) -> (r: Vec<Pid>)
    requires
        pairs_ascending(v@),
    ensures
        ascending(r@),
        r@.to_set() == firsts_of(v@.to_set()),
{
    let mut r: Vec<Pid> = Vec::new();
    let mut i: usize = 0;
    while i < v.len()
        invariant
            i <= v@.len(),
            pairs_ascending(v@),
            ascending(r@),
            forall|k: int| 0 <= k < r@.len() ==> exists|m: int| 0 <= m < i && #[trigger] v@[m].0 == #[trigger] r@[k],
            forall|k: int| 0 <= k < i ==> r@.contains(#[trigger] v@[k].0),
            r@.len() > 0 ==> i > 0 && r@[r@.len() - 1] == v@[i - 1].0,
            r@.len() == 0 ==> i == 0,
        decreases v@.len() - i,
    {
        let e = v[i];
        if r.len() == 0 || r[r.len() - 1] != e.0 {
            proof {
                if r@.len() > 0 {
                    assert(pair_lt(v@[i - 1], v@[i as int]));
                }
            }
            let ghost r0 = r@;
            r.push(e.0);
            proof {
                assert forall|k: int| 0 <= k < r@.len() implies exists|m: int| 0 <= m < i + 1 && #[trigger] v@[m].0 == #[trigger] r@[k] by {
                    if k == r@.len() - 1 {
                        assert(v@[i as int].0 == r@[k]);
                    } else {
                        let m = choose|m: int| 0 <= m < i && #[trigger] v@[m].0 == r0[k];
                        assert(r0[k] == r@[k]);
                        assert(v@[m].0 == r@[k]);
                    }
                }
                assert forall|k: int| 0 <= k < i + 1 implies r@.contains(#[trigger] v@[k].0) by {
                    if k == i {
                        assert(r@[r@.len() - 1] == v@[k].0);
                    } else {
                        let t = choose|t: int| 0 <= t < r0.len() && r0[t] == v@[k].0;
                        assert(r@[t] == v@[k].0);
                    }
                }
            }
        } else {
            proof {
                assert(r@[r@.len() - 1] == v@[i as int].0);
                assert forall|k: int| 0 <= k < i + 1 implies r@.contains(#[trigger] v@[k].0) by {
                    if k == i {
                        assert(r@[r@.len() - 1] == v@[k].0);
                    }
                }
            }
        }
        i = i + 1;
    }
    proof {
        assert forall|p: Pid| r@.to_set().contains(p) == firsts_of(v@.to_set()).contains(p) by {
            if r@.to_set().contains(p) {
                let k = choose|k: int| 0 <= k < r@.len() && r@[k] == p;
                let m = choose|m: int| 0 <= m < i && #[trigger] v@[m].0 == r@[k];
                assert(v@.to_set().contains(v@[m]));
                assert(v@.to_set().contains((p, v@[m].1)));
            }
            if firsts_of(v@.to_set()).contains(p) {
                let q = choose|q: Pid| v@.to_set().contains((p, q));
                let m = choose|m: int| 0 <= m < v@.len() && v@[m] == (p, q);
                assert(r@.contains(v@[m].0));
            }
        }
        assert(r@.to_set() =~= firsts_of(v@.to_set()));
    }
    r
}


/// The first running task with `pid`, looking from position `i`.
pub open spec fn running_from(r: Seq<RunningTask>, pid: Pid, i: int) -> Option<RunningTask>
    decreases r.len() - i,
{
    if i >= r.len() || i < 0 {
        None
    } else if r[i].pid == pid {
        Some(r[i])
    } else {
        running_from(r, pid, i + 1)
    }
}

/// The running task with `pid`, if some CPU runs it.
pub open spec fn running_of(r: Seq<RunningTask>, pid: Pid) -> Option<RunningTask> {
    running_from(r, pid, 0)
}

/// The running task with `pid`.
pub fn find_running(running: &Vec<RunningTask>, pid: Pid) -> (r: Option<RunningTask>)
    ensures
        r == running_of(running@, pid),
{
    let mut i: usize = 0;
    while i < running.len()
        invariant
            i <= running@.len(),
            running_from(running@, pid, 0) == running_from(running@, pid, i as int),
        decreases running@.len() - i,
    {
        if running[i].pid == pid {
            return Some(running[i]);
        }
        i = i + 1;
    }
    None
}

/// A pid for a new task, and the next pid after it: the `requested` one (`Inval` for 0,
/// `Exists` when a task, zombie or running task has it; later pids then start above it),
/// else the next one.
pub open spec fn spec_allocate_pid(st: ManagerState, next: Pid, requested: Option<Pid>, running: Seq<RunningTask>) -> (
    Result<Pid, crate::errno::SysErr>,
    Pid,
) {
    match requested {
        Some(pid) => if pid == 0 {
            (Err(crate::errno::SysErr::Inval), next)
        } else if st.tasks.contains_key(pid) || st.zombies.contains_key(pid) || running_of(running, pid) is Some {
            (Err(crate::errno::SysErr::Exists), next)
        } else {
            (
                Ok(pid),
                if pid >= next {
                    pid_after(pid)
                } else {
                    next
                },
            )
        },
        None => (Ok(next), pid_after(next)),
    }
}

/// `n + 1`, staying at the largest pid.
pub open spec fn pid_after(n: Pid) -> Pid {
    if n == u32::MAX {
        n
    } else {
        (n + 1) as Pid
    }
}

/// The state after `child` is linked to `parent`, when it has one.
pub open spec fn spec_track_child(st: ManagerState, parent: Option<Pid>, child: Pid) -> ManagerState {
    match parent {
        Some(p) => ManagerState { parent_children: st.parent_children.insert((p, child)), ..st },
        None => st,
    }
}

/// The state after the link of `child` to `parent` goes.
pub open spec fn spec_untrack_child(st: ManagerState, parent: Option<Pid>, child: Pid) -> ManagerState {
    match parent {
        Some(p) => ManagerState { parent_children: st.parent_children.remove((p, child)), ..st },
        None => st,
    }
}

/// The state after `pid` leaves thread group `tgid`; a group left empty loses its exit
/// status.
pub open spec fn spec_untrack_group(st: ManagerState, tgid: Pid, pid: Pid) -> ManagerState {
    if firsts_of(st.thread_groups).contains(tgid) {
        let tg = st.thread_groups.remove((tgid, pid));
        if firsts_of(tg).contains(tgid) {
            ManagerState { thread_groups: tg, ..st }
        } else {
            ManagerState { thread_groups: tg, group_exit_status: st.group_exit_status.remove(tgid), ..st }
        }
    } else {
        st
    }
}

/// A new task taken in by `insert_cloned_process`: it joins its thread group, a process
/// (not a thread) is linked to its parent, and it goes to its CPU's run queue.
pub open spec fn spec_insert_task(st: ManagerState, t: TaskEntry) -> ManagerState {
    let pid = t.identity.pid;
    let st1 = ManagerState { thread_groups: st.thread_groups.insert((t.identity.thread_group, pid)), ..st };
    let st2 = if t.identity.thread_group != pid {
        st1
    } else {
        spec_track_child(st1, t.identity.parent, pid)
    };
    ManagerState {
        tasks: st2.tasks.insert(pid, t),
        runnable: st2.runnable.push((pid, t.assigned_cpu)),
        ..st2
    }
}

/// The thread group of `pid`: from the manager's record, else from the CPU running it.
pub open spec fn spec_thread_group_of(st: ManagerState, running: Seq<RunningTask>, pid: Pid) -> Option<Pid> {
    if st.tasks.contains_key(pid) {
        Some(st.tasks[pid].identity.thread_group)
    } else {
        match running_of(running, pid) {
            Some(r) => Some(r.thread_group),
            None => None,
        }
    }
}

impl ProcessManager {
    /// A pid for a new task: the `requested` one (`Inval` for 0, `Exists` when a task,
    /// zombie or running task has it; later pids then start above it), else the next one.
    pub fn allocate_pid(&mut self, requested: Option<Pid>, running: &Vec<RunningTask>) -> (r: Result<Pid, crate::errno::SysErr>)
        requires
            old(self).wf(),
        ensures
            final(self).wf(),
            forall|q: Seq<(Pid, usize)>| #[trigger] final(self).state(q) == old(self).state(q),
            ({
                let (res, next) = spec_allocate_pid(old(self).state(Seq::empty()), old(self).next_pid(), requested, running@);
                r == res && final(self).next_pid() == next
            }),
    {
        match requested {
            Some(pid) => {
                if pid == 0 {
                    return Err(crate::errno::SysErr::Inval);
                }
                if self.tasks.contains_key(&pid) || self.zombies.contains_key(&pid) || find_running(running, pid).is_some() {
                    return Err(crate::errno::SysErr::Exists);
                }
                if pid >= self.next_pid {
                    self.next_pid = pid.saturating_add(1);
                }
                Ok(pid)
            },
            None => {
                let pid = self.next_pid;
                self.next_pid = self.next_pid.saturating_add(1);
                Ok(pid)
            },
        }
    }

    fn track_child_link(&mut self, parent: Option<Pid>, child: Pid)
        requires
            old(self).wf(),
        ensures
            final(self).wf(),
            final(self).next_pid() == old(self).next_pid(),
            forall|q: Seq<(Pid, usize)>| #[trigger] final(self).state(q) == spec_track_child(old(self).state(q), parent, child),
    {
        match parent {
            Some(p) => pair_insert(&mut self.parent_children, (p, child)),
            None => {},
        }
    }

    fn untrack_child_link(&mut self, parent: Option<Pid>, child: Pid)
        requires
            old(self).wf(),
        ensures
            final(self).wf(),
            final(self).next_pid() == old(self).next_pid(),
            forall|q: Seq<(Pid, usize)>| #[trigger] final(self).state(q) == spec_untrack_child(old(self).state(q), parent, child),
    {
        match parent {
            Some(p) => pair_remove(&mut self.parent_children, (p, child)),
            None => {},
        }
    }

    fn has_group(&self, tgid: Pid) -> (r: bool)
        requires
            self.wf(),
        ensures
            r == firsts_of(self.state(Seq::empty()).thread_groups).contains(tgid),
    {
        let members = seconds_in_order(&self.thread_groups, tgid);
        proof {
            if members@.len() > 0 {
                assert(members@.to_set().contains(members@[0]));
                assert(self.thread_groups@.to_set().contains((tgid, members@[0])));
            }
            if firsts_of(self.thread_groups@.to_set()).contains(tgid) {
                let q = choose|q: Pid| self.thread_groups@.to_set().contains((tgid, q));
                assert(members@.to_set().contains(q));
            }
        }
        members.len() > 0
    }

    fn track_thread_group(&mut self, tgid: Pid, pid: Pid)
        requires
            old(self).wf(),
        ensures
            final(self).wf(),
            final(self).next_pid() == old(self).next_pid(),
            forall|q: Seq<(Pid, usize)>| #[trigger] final(self).state(q) == (ManagerState {
                thread_groups: old(self).state(q).thread_groups.insert((tgid, pid)),
                ..old(self).state(q)
            }),
    {
        pair_insert(&mut self.thread_groups, (tgid, pid));
    }

    fn untrack_thread_group(&mut self, tgid: Pid, pid: Pid)
        requires
            old(self).wf(),
        ensures
            final(self).wf(),
            final(self).next_pid() == old(self).next_pid(),
            forall|q: Seq<(Pid, usize)>| #[trigger] final(self).state(q) == spec_untrack_group(old(self).state(q), tgid, pid),
    {
        if !self.has_group(tgid) {
            return;
        }
        pair_remove(&mut self.thread_groups, (tgid, pid));
        if !self.has_group(tgid) {
            self.group_exit_status.remove(&tgid);
        }
    }

    /// Takes in a cloned task; see `spec_insert_task`. Returns its pid.
    pub fn insert_cloned_process(&mut self, task: TaskEntry, runnable: &mut Vec<(Pid, usize)>) -> (r: Pid)
        requires
            old(self).wf(),
        ensures
            final(self).wf(),
            final(self).next_pid() == old(self).next_pid(),
            r == task.identity.pid,
            final(self).state(final(runnable)@) == spec_insert_task(old(self).state(old(runnable)@), task),
    {
        let pid = task.identity.pid;
        let ghost r0 = runnable@;
        let ghost s0 = self.state(r0);
        self.track_thread_group(task.identity.thread_group, pid);
        let ghost s1 = self.state(r0);
        assert(s1 == (ManagerState { thread_groups: s0.thread_groups.insert((task.identity.thread_group, pid)), ..s0 }));
        if task.identity.thread_group == pid {
            self.track_child_link(task.identity.parent, pid);
            assert(self.state(r0) == spec_track_child(s1, task.identity.parent, pid));
        }
        let ghost s2 = self.state(r0);
        self.tasks.insert(pid, task);
        runnable.push((pid, task.assigned_cpu));
        assert(self.state(runnable@) == (ManagerState { tasks: s2.tasks.insert(pid, task), runnable: r0.push((pid, task.assigned_cpu)), ..s2 }));
        pid
    }

    /// Starts a new process under `parent` on `assigned_cpu`: it gets the next pid, leads its
    /// own thread group, process group and session, and is runnable.
    pub fn spawn_task(&mut self, parent: Option<Pid>, assigned_cpu: usize, runnable: &mut Vec<(Pid, usize)>) -> (r: Pid)
        requires
            old(self).wf(),
        ensures
            final(self).wf(),
            r == old(self).next_pid(),
            final(self).next_pid() == pid_after(old(self).next_pid()),
            final(self).state(final(runnable)@) == spec_insert_task(
                old(self).state(old(runnable)@),
                TaskEntry {
                    identity: ProcessIdentity { pid: r, thread_group: r, parent, process_group: r, session: r },
                    state: ProcessState::Runnable,
                    wake_result: None,
                    assigned_cpu,
                    blocked_signals: 0,
                },
            ),
    {
        let pid = self.next_pid;
        self.next_pid = self.next_pid.saturating_add(1);
        let task = TaskEntry {
            identity: ProcessIdentity { pid, thread_group: pid, parent, process_group: pid, session: pid },
            state: ProcessState::Runnable,
            wake_result: None,
            assigned_cpu,
            blocked_signals: 0,
        };
        self.insert_cloned_process(task, runnable)
    }

    /// The thread group of `pid`; see `spec_thread_group_of`.
    pub fn thread_group_of(&self, pid: Pid, running: &Vec<RunningTask>) -> (r: Option<Pid>)
        ensures
            r == spec_thread_group_of(self.state(Seq::empty()), running@, pid),
    {
        match self.tasks.get(&pid) {
            Some(t) => Some(t.identity.thread_group),
            None => match find_running(running, pid) {
                Some(r) => Some(r.thread_group),
                None => None,
            },
        }
    }

    /// Whether thread group `tgid` has members.
    pub fn has_thread_group(&self, tgid: Pid) -> (r: bool)
        requires
            self.wf(),
        ensures
            r == firsts_of(self.state(Seq::empty()).thread_groups).contains(tgid),
    {
        self.has_group(tgid)
    }
}


/// The process group of the first member of `ms`, from position `i`, that the manager holds
/// or a CPU runs.
pub open spec fn tg_pg_from(st: ManagerState, running: Seq<RunningTask>, ms: Seq<Pid>, i: int) -> Option<Pid>
    decreases ms.len() - i,
{
    if i >= ms.len() || i < 0 {
        None
    } else {
        let p = ms[i];
        if st.tasks.contains_key(p) {
            Some(st.tasks[p].identity.process_group)
        } else {
            match running_of(running, p) {
                Some(r) => Some(r.process_group),
                None => tg_pg_from(st, running, ms, i + 1),
            }
        }
    }
}

/// The process group of thread group `tgid`, read from its members by pid.
pub open spec fn spec_thread_group_process_group(st: ManagerState, running: Seq<RunningTask>, tgid: Pid) -> Option<Pid> {
    tg_pg_from(st, running, in_order(seconds_of(st.thread_groups, tgid)), 0)
}

/// The session of the first member of `ms`, from position `i`, that the manager holds.
pub open spec fn tg_session_from(st: ManagerState, ms: Seq<Pid>, i: int) -> Option<Pid>
    decreases ms.len() - i,
{
    if i >= ms.len() || i < 0 {
        None
    } else if st.tasks.contains_key(ms[i]) {
        Some(st.tasks[ms[i]].identity.session)
    } else {
        tg_session_from(st, ms, i + 1)
    }
}

/// The session of thread group `tgid`, read from its members by pid.
pub open spec fn spec_thread_group_session(st: ManagerState, tgid: Pid) -> Option<Pid> {
    tg_session_from(st, in_order(seconds_of(st.thread_groups, tgid)), 0)
}

/// The session of the first thread group of `tgids`, from position `i`, in process group
/// `pgid` whose session is known.
pub open spec fn pg_session_from(st: ManagerState, running: Seq<RunningTask>, tgids: Seq<Pid>, i: int, pgid: Pid) -> Option<Pid>
    decreases tgids.len() - i,
{
    if i >= tgids.len() || i < 0 {
        None
    } else {
        let t = tgids[i];
        if spec_thread_group_process_group(st, running, t) == Some(pgid) && spec_thread_group_session(st, t) is Some {
            spec_thread_group_session(st, t)
        } else {
            pg_session_from(st, running, tgids, i + 1, pgid)
        }
    }
}

/// The session of process group `pgid`: that of its first thread group, by id, with a
/// known session.
pub open spec fn spec_process_group_session(st: ManagerState, running: Seq<RunningTask>, pgid: Pid) -> Option<Pid> {
    pg_session_from(st, running, in_order(firsts_of(st.thread_groups)), 0, pgid)
}

/// Whether some thread group is in process group `pgid`.
pub open spec fn spec_has_process_group(st: ManagerState, running: Seq<RunningTask>, pgid: Pid) -> bool {
    exists|t: Pid| firsts_of(st.thread_groups).contains(t) && spec_thread_group_process_group(st, running, t) == Some(pgid)
}

/// Whether the manager holds `p` or a CPU runs it.
pub open spec fn is_live(st: ManagerState, running: Seq<RunningTask>, p: Pid) -> bool {
    st.tasks.contains_key(p) || running_of(running, p) is Some
}

/// Whether `p` takes `signal` at once: it runs, or the manager holds it with the signal
/// not blocked.
pub open spec fn takes_signal(st: ManagerState, running: Seq<RunningTask>, p: Pid, signal: u8) -> bool {
    (st.tasks.contains_key(p) && !spec_is_blocked(st.tasks[p].blocked_signals, signal)) || running_of(running, p) is Some
}

/// The member of `ms`, from position `i`, that takes `signal` at once; else the first live
/// one (`fallback` when already set).
pub open spec fn pick_from(
    st: ManagerState,
    running: Seq<RunningTask>,
    ms: Seq<Pid>,
    i: int,
    signal: u8,
    fallback: Option<Pid>,
) -> Option<Pid>
    decreases ms.len() - i,
{
    if i >= ms.len() || i < 0 {
        fallback
    } else {
        let p = ms[i];
        if fallback == Some(p) || !is_live(st, running, p) {
            pick_from(st, running, ms, i + 1, signal, fallback)
        } else if takes_signal(st, running, p, signal) {
            Some(p)
        } else {
            pick_from(
                st,
                running,
                ms,
                i + 1,
                signal,
                if fallback is None {
                    Some(p)
                } else {
                    fallback
                },
            )
        }
    }
}

/// The member of thread group `tgid` a signal for the group goes to: the leader when live
/// and taking it, else the first member by pid that takes it, else the leader or the first
/// live member; `None` for a group with no live member.
pub open spec fn spec_pick_target(st: ManagerState, running: Seq<RunningTask>, tgid: Pid, signal: u8) -> Option<Pid> {
    let ms = in_order(seconds_of(st.thread_groups, tgid));
    if seconds_of(st.thread_groups, tgid).contains(tgid) && is_live(st, running, tgid) {
        if takes_signal(st, running, tgid, signal) {
            Some(tgid)
        } else {
            pick_from(st, running, ms, 0, signal, Some(tgid))
        }
    } else {
        pick_from(st, running, ms, 0, signal, None)
    }
}

impl ProcessManager {
    fn members_of(&self, tgid: Pid) -> (r: Vec<Pid>)
        requires
            self.wf(),
        ensures
            r@ == in_order(seconds_of(self.state(Seq::empty()).thread_groups, tgid)),
            ascending(r@),
            r@.to_set() == seconds_of(self.state(Seq::empty()).thread_groups, tgid),
    {
        let r = seconds_in_order(&self.thread_groups, tgid);
        proof {
            lemma_in_order(r@);
        }
        r
    }

    fn group_ids(&self) -> (r: Vec<Pid>)
        requires
            self.wf(),
        ensures
            r@ == in_order(firsts_of(self.state(Seq::empty()).thread_groups)),
            ascending(r@),
            r@.to_set() == firsts_of(self.state(Seq::empty()).thread_groups),
    {
        let r = firsts_in_order(&self.thread_groups);
        proof {
            lemma_in_order(r@);
        }
        r
    }

    /// The process group of thread group `tgid`; see `spec_thread_group_process_group`.
    fn thread_group_process_group(&self, tgid: Pid, running: &Vec<RunningTask>) -> (r: Option<Pid>)
        requires
            self.wf(),
        ensures
            r == spec_thread_group_process_group(self.state(Seq::empty()), running@, tgid),
    {
        let ms = self.members_of(tgid);
        let ghost st = self.state(Seq::empty());
        let mut i: usize = 0;
        while i < ms.len()
            invariant
                i <= ms@.len(),
                st == self.state(Seq::empty()),
                ms@ == in_order(seconds_of(st.thread_groups, tgid)),
                tg_pg_from(st, running@, ms@, 0) == tg_pg_from(st, running@, ms@, i as int),
            decreases ms@.len() - i,
        {
            let p = ms[i];
            match self.tasks.get(&p) {
                Some(t) => return Some(t.identity.process_group),
                None => {},
            }
            match find_running(running, p) {
                Some(r) => return Some(r.process_group),
                None => {},
            }
            i = i + 1;
        }
        None
    }

    /// The session of thread group `tgid`; see `spec_thread_group_session`.
    fn thread_group_session(&self, tgid: Pid) -> (r: Option<Pid>)
        requires
            self.wf(),
        ensures
            r == spec_thread_group_session(self.state(Seq::empty()), tgid),
    {
        let ms = self.members_of(tgid);
        let ghost st = self.state(Seq::empty());
        let mut i: usize = 0;
        while i < ms.len()
            invariant
                i <= ms@.len(),
                st == self.state(Seq::empty()),
                ms@ == in_order(seconds_of(st.thread_groups, tgid)),
                tg_session_from(st, ms@, 0) == tg_session_from(st, ms@, i as int),
            decreases ms@.len() - i,
        {
            match self.tasks.get(&ms[i]) {
                Some(t) => return Some(t.identity.session),
                None => {},
            }
            i = i + 1;
        }
        None
    }

    /// The session of process group `pgid`; see `spec_process_group_session`.
    pub fn process_group_session(&self, pgid: Pid, running: &Vec<RunningTask>) -> (r: Option<Pid>)
        requires
            self.wf(),
        ensures
            r == spec_process_group_session(self.state(Seq::empty()), running@, pgid),
    {
        let ids = self.group_ids();
        let ghost st = self.state(Seq::empty());
        let mut i: usize = 0;
        while i < ids.len()
            invariant
                i <= ids@.len(),
                self.wf(),
                st == self.state(Seq::empty()),
                ids@ == in_order(firsts_of(st.thread_groups)),
                pg_session_from(st, running@, ids@, 0, pgid) == pg_session_from(st, running@, ids@, i as int, pgid),
            decreases ids@.len() - i,
        {
            let t = ids[i];
            if self.thread_group_process_group(t, running) == Some(pgid) {
                let session = self.thread_group_session(t);
                if session.is_some() {
                    return session;
                }
            }
            i = i + 1;
        }
        None
    }

    /// Whether some thread group is in process group `pgid`.
    pub fn has_process_group(&self, pgid: Pid, running: &Vec<RunningTask>) -> (r: bool)
        requires
            self.wf(),
        ensures
            r == spec_has_process_group(self.state(Seq::empty()), running@, pgid),
    {
        let ids = self.group_ids();
        let ghost st = self.state(Seq::empty());
        let mut i: usize = 0;
        while i < ids.len()
            invariant
                i <= ids@.len(),
                self.wf(),
                st == self.state(Seq::empty()),
                ids@ == in_order(firsts_of(st.thread_groups)),
                ascending(ids@) && ids@.to_set() == firsts_of(st.thread_groups),
                forall|k: int| 0 <= k < i ==> spec_thread_group_process_group(st, running@, #[trigger] ids@[k]) != Some(pgid),
            decreases ids@.len() - i,
        {
            if self.thread_group_process_group(ids[i], running) == Some(pgid) {
                assert(ids@.to_set().contains(ids@[i as int]));
                return true;
            }
            i = i + 1;
        }
        proof {
            assert forall|t: Pid| firsts_of(st.thread_groups).contains(t) implies spec_thread_group_process_group(st, running@, t) != Some(pgid) by {
                assert(ids@.to_set().contains(t));
                let k = choose|k: int| 0 <= k < ids@.len() && ids@[k] == t;
                assert(spec_thread_group_process_group(st, running@, ids@[k]) != Some(pgid));
            }
        }
        false
    }

    /// The member of thread group `tgid` a group signal goes to; see `spec_pick_target`.
    fn pick_thread_group_target(&self, tgid: Pid, signal: u8, running: &Vec<RunningTask>) -> (r: Option<Pid>)
        requires
            self.wf(),
        ensures
            r == spec_pick_target(self.state(Seq::empty()), running@, tgid, signal),
    {
        let ms = self.members_of(tgid);
        let ghost st = self.state(Seq::empty());
        let mut fallback: Option<Pid> = None;
        let leader_member = vec_contains(&ms, tgid);
        let leader_held = self.tasks.contains_key(&tgid);
        let leader_running = find_running(running, tgid).is_some();
        if leader_member && (leader_held || leader_running) {
            fallback = Some(tgid);
            match self.tasks.get(&tgid) {
                Some(t) => {
                    if !is_blocked(t.blocked_signals, signal) {
                        return Some(tgid);
                    }
                },
                None => {},
            }
            if leader_running {
                return Some(tgid);
            }
        }
        let ghost fb0 = fallback;
        assert(ms@.contains(tgid) == seconds_of(st.thread_groups, tgid).contains(tgid));
        assert(spec_pick_target(st, running@, tgid, signal) == pick_from(st, running@, ms@, 0, signal, fb0));
        let mut i: usize = 0;
        while i < ms.len()
            invariant
                i <= ms@.len(),
                st == self.state(Seq::empty()),
                spec_pick_target(st, running@, tgid, signal) == pick_from(st, running@, ms@, 0, signal, fb0),
                pick_from(st, running@, ms@, 0, signal, fb0) == pick_from(st, running@, ms@, i as int, signal, fallback),
            decreases ms@.len() - i,
        {
            let p = ms[i];
            let live = self.tasks.contains_key(&p) || find_running(running, p).is_some();
            if fallback != Some(p) && live {
                if fallback.is_none() {
                    fallback = Some(p);
                }
                match self.tasks.get(&p) {
                    Some(t) => {
                        if !is_blocked(t.blocked_signals, signal) {
                            return Some(p);
                        }
                    },
                    None => {},
                }
                if find_running(running, p).is_some() {
                    return Some(p);
                }
            }
            i = i + 1;
        }
        fallback
    }
}

fn vec_contains(v: &Vec<Pid>, x: Pid) -> (r: bool)
    ensures
        r == v@.contains(x),
{
    let mut i: usize = 0;
    while i < v.len()
        invariant
            i <= v@.len(),
            forall|k: int| 0 <= k < i ==> v@[k] != x,
        decreases v@.len() - i,
    {
        if v[i] == x {
            return true;
        }
        i = i + 1;
    }
    false
}


/// A task moved to process group `pg`.
pub open spec fn with_group(t: TaskEntry, pg: Pid) -> TaskEntry {
    TaskEntry { identity: ProcessIdentity { process_group: pg, ..t.identity }, ..t }
}

/// Moves the members of `ms` from position `i` that the manager holds, except `skip`, to
/// process group `pg`.
pub open spec fn regroup_others(tasks: Map<Pid, TaskEntry>, ms: Seq<Pid>, i: int, pg: Pid, skip: Pid) -> Map<Pid, TaskEntry>
    decreases ms.len() - i,
{
    if i >= ms.len() || i < 0 {
        tasks
    } else {
        let p = ms[i];
        let t2 = if p != skip && tasks.contains_key(p) {
            tasks.insert(p, with_group(tasks[p], pg))
        } else {
            tasks
        };
        regroup_others(t2, ms, i + 1, pg, skip)
    }
}

/// Moves the members of `ms` from position `i` to process group `pg`, stopping (with
/// `false`) at the first one the manager does not hold.
pub open spec fn regroup_all(tasks: Map<Pid, TaskEntry>, ms: Seq<Pid>, i: int, pg: Pid) -> (Map<Pid, TaskEntry>, bool)
    decreases ms.len() - i,
{
    if i >= ms.len() || i < 0 {
        (tasks, true)
    } else if !tasks.contains_key(ms[i]) {
        (tasks, false)
    } else {
        regroup_all(tasks.insert(ms[i], with_group(tasks[ms[i]], pg)), ms, i + 1, pg)
    }
}

/// The first member of `ms`, from position `i`, the manager holds.
pub open spec fn first_held(tasks: Map<Pid, TaskEntry>, ms: Seq<Pid>, i: int) -> Option<Pid>
    decreases ms.len() - i,
{
    if i >= ms.len() || i < 0 {
        None
    } else if tasks.contains_key(ms[i]) {
        Some(ms[i])
    } else {
        first_held(tasks, ms, i + 1)
    }
}

/// Whether `pg` is a group the caller may join: the target's own, the caller's, or one in
/// the caller's session.
pub open spec fn may_join(st: ManagerState, running: Seq<RunningTask>, me: ProcessIdentity, own: Pid, pg: Pid) -> bool {
    pg == own || pg == me.process_group || spec_process_group_session(st, running, pg) == Some(me.session)
}

/// `setpgid(target_pid, pgid)` by `caller` (0 naming the caller, and the target, in turn).
/// For the caller itself: `Perm` for a session leader or a group it may not join; else it
/// and the other members of its thread group the manager holds move. For another task:
/// `Srch` unless it is a child of the caller (by thread group or pid) whose group has a
/// member the manager holds; `Perm` for another session, a session leader, or a group it
/// may not join; else its members move, with `Srch` at the first one not held.
pub open spec fn spec_setpgid(
    st: ManagerState,
    running: Seq<RunningTask>,
    caller: TaskEntry,
    target_pid: Pid,
    pgid: Pid,
) -> (ManagerState, TaskEntry, Result<u64, crate::errno::SysErr>) {
    let me = caller.identity;
    let target = if target_pid == 0 {
        me.pid
    } else {
        target_pid
    };
    let pg = if pgid == 0 {
        target
    } else {
        pgid
    };
    if target == me.pid {
        if me.session == me.pid || !may_join(st, running, me, target, pg) {
            (st, caller, Err(crate::errno::SysErr::Perm))
        } else {
            (
                ManagerState {
                    tasks: regroup_others(st.tasks, in_order(seconds_of(st.thread_groups, me.thread_group)), 0, pg, me.pid),
                    ..st
                },
                with_group(caller, pg),
                Ok(0),
            )
        }
    } else {
        match spec_thread_group_of(st, running, target) {
            None => (st, caller, Err(crate::errno::SysErr::Srch)),
            Some(tgid) => {
                let ms = in_order(seconds_of(st.thread_groups, tgid));
                if !(st.parent_children.contains((me.pid, tgid)) || st.parent_children.contains((me.pid, target))) {
                    (st, caller, Err(crate::errno::SysErr::Srch))
                } else {
                    match first_held(st.tasks, ms, 0) {
                        None => (st, caller, Err(crate::errno::SysErr::Srch)),
                        Some(rep) => {
                            let rs = st.tasks[rep].identity.session;
                            if rs != me.session || rs == tgid || !may_join(st, running, me, tgid, pg) {
                                (st, caller, Err(crate::errno::SysErr::Perm))
                            } else {
                                let (tasks, ok) = regroup_all(st.tasks, ms, 0, pg);
                                (
                                    ManagerState { tasks, ..st },
                                    caller,
                                    if ok {
                                        Ok(0)
                                    } else {
                                        Err(crate::errno::SysErr::Srch)
                                    },
                                )
                            }
                        },
                    }
                }
            },
        }
    }
}

impl ProcessManager {
    /// Everything but the tasks is as in `st`.
    closed spec fn same_but_tasks(&self, st: ManagerState) -> bool {
        &&& self.blocked_files@ == st.blocked_files
        &&& self.blocked_timers@ == st.blocked_timers
        &&& self.next_timer_deadline_nanos == st.next_timer_deadline
        &&& self.blocked_futexes@.to_set() == st.blocked_futexes
        &&& table_map(self.armed_futex_waits@) == st.armed
        &&& self.thread_groups@.to_set() == st.thread_groups
        &&& self.parent_children@.to_set() == st.parent_children
        &&& self.zombies@ == st.zombies
        &&& self.child_events@ == st.child_events
        &&& self.group_exit_status@ == st.group_exit_status
        &&& self.queued_signals@ == st.queued_signals
    }

    fn has_child_link(&self, parent: Pid, child: Pid) -> (r: bool)
        requires
            self.wf(),
        ensures
            r == self.state(Seq::empty()).parent_children.contains((parent, child)),
    {
        let (j, found) = pair_position(&self.parent_children, (parent, child));
        proof {
            if !found && self.parent_children@.to_set().contains((parent, child)) {
                let k = choose|k: int| 0 <= k < self.parent_children@.len() && self.parent_children@[k] == (parent, child);
                assert(!pair_lt(self.parent_children@[k], (parent, child)) && !pair_lt((parent, child), self.parent_children@[k]));
            }
            if found {
                assert(self.parent_children@.to_set().contains(self.parent_children@[j as int]));
            }
        }
        found
    }

    /// `setpgid`; see `spec_setpgid`. `caller` is the running task making the call.
    pub fn setpgid(&mut self, caller: &mut TaskEntry, target_pid: Pid, pgid: Pid, running: &Vec<RunningTask>) -> (r: Result<
        u64,
        crate::errno::SysErr,
    >)
        requires
            old(self).wf(),
        ensures
            final(self).wf(),
            final(self).next_pid() == old(self).next_pid(),
            ({
                let (st, c, res) = spec_setpgid(old(self).state(Seq::empty()), running@, *old(caller), target_pid, pgid);
                &&& forall|q: Seq<(Pid, usize)>| #[trigger] final(self).state(q) == (ManagerState { runnable: q, ..st })
                &&& *final(caller) == c
                &&& r == res
            }),
    {
        let ghost st = self.state(Seq::empty());
        assert(self.same_but_tasks(st));
        let me = caller.identity;
        let target = if target_pid == 0 {
            me.pid
        } else {
            target_pid
        };
        let pg = if pgid == 0 {
            target
        } else {
            pgid
        };
        if target == me.pid {
            if me.session == me.pid {
                return Err(crate::errno::SysErr::Perm);
            }
            if pg != target && pg != me.process_group && self.process_group_session(pg, running) != Some(me.session) {
                return Err(crate::errno::SysErr::Perm);
            }
            caller.identity.process_group = pg;
            let ms = self.members_of(me.thread_group);
            let mut i: usize = 0;
            while i < ms.len()
                invariant
                    i <= ms@.len(),
                    self.wf(),
                    self.next_pid() == old(self).next_pid(),
                    ms@ == in_order(seconds_of(st.thread_groups, me.thread_group)),
                    self.same_but_tasks(st),
                    st == old(self).state(Seq::empty()),
                    regroup_others(self.tasks@, ms@, i as int, pg, me.pid) == regroup_others(st.tasks, ms@, 0, pg, me.pid),
                decreases ms@.len() - i,
            {
                let p = ms[i];
                if p != me.pid {
                    match self.tasks.get(&p) {
                        Some(t) => {
                            let t2 = TaskEntry { identity: ProcessIdentity { process_group: pg, ..t.identity }, ..*t };
                            self.tasks.insert(p, t2);
                        },
                        None => {},
                    }
                }
                i = i + 1;
            }
            return Ok(0);
        }
        let tgid = match self.thread_group_of(target, running) {
            Some(t) => t,
            None => return Err(crate::errno::SysErr::Srch),
        };
        if !(self.has_child_link(me.pid, tgid) || self.has_child_link(me.pid, target)) {
            return Err(crate::errno::SysErr::Srch);
        }
        let ms = self.members_of(tgid);
        let mut k: usize = 0;
        while k < ms.len() && !self.tasks.contains_key(&ms[k])
            invariant
                k <= ms@.len(),
                st == self.state(Seq::empty()),
                first_held(st.tasks, ms@, 0) == first_held(st.tasks, ms@, k as int),
            decreases ms@.len() - k,
        {
            k = k + 1;
        }
        if k == ms.len() {
            return Err(crate::errno::SysErr::Srch);
        }
        let rep = *self.tasks.get(&ms[k]).unwrap();
        let rs = rep.identity.session;
        if rs != me.session || rs == tgid {
            return Err(crate::errno::SysErr::Perm);
        }
        if pg != tgid && pg != me.process_group && self.process_group_session(pg, running) != Some(me.session) {
            return Err(crate::errno::SysErr::Perm);
        }
        let ghost outcome = regroup_all(st.tasks, ms@, 0, pg);
        assert(first_held(st.tasks, ms@, 0) == Some(ms@[k as int]));
        assert(spec_setpgid(st, running@, *old(caller), target_pid, pgid) == (
            ManagerState { tasks: outcome.0, ..st },
            *old(caller),
            if outcome.1 {
                Ok::<u64, crate::errno::SysErr>(0)
            } else {
                Err::<u64, crate::errno::SysErr>(crate::errno::SysErr::Srch)
            },
        ));
        let mut i: usize = 0;
        while i < ms.len()
            invariant
                i <= ms@.len(),
                self.wf(),
                self.next_pid() == old(self).next_pid(),
                *caller == *old(caller),
                ms@ == in_order(seconds_of(st.thread_groups, tgid)),
                outcome == regroup_all(st.tasks, ms@, 0, pg),
                spec_setpgid(st, running@, *old(caller), target_pid, pgid) == (
                    ManagerState { tasks: outcome.0, ..st },
                    *old(caller),
                    if outcome.1 {
                        Ok::<u64, crate::errno::SysErr>(0)
                    } else {
                        Err::<u64, crate::errno::SysErr>(crate::errno::SysErr::Srch)
                    },
                ),
                self.same_but_tasks(st),
                st == old(self).state(Seq::empty()),
                regroup_all(self.tasks@, ms@, i as int, pg) == regroup_all(st.tasks, ms@, 0, pg),
            decreases ms@.len() - i,
        {
            let p = ms[i];
            match self.tasks.get(&p) {
                Some(t) => {
                    let t2 = TaskEntry { identity: ProcessIdentity { process_group: pg, ..t.identity }, ..*t };
                    self.tasks.insert(p, t2);
                },
                None => {
                    assert(!self.tasks@.contains_key(ms@[i as int]));
                    assert(regroup_all(self.tasks@, ms@, i as int, pg) == (self.tasks@, false));
                    assert(outcome == (self.tasks@, false));
                    assert(self.state(Seq::empty()) == (ManagerState { tasks: outcome.0, ..st }));
                    return Err(crate::errno::SysErr::Srch);
                },
            }
            i = i + 1;
        }
        Ok(0)
    }
}


/// The process group of a child: from the manager's record, its zombie, or the CPU
/// running it.
pub open spec fn spec_child_process_group(st: ManagerState, running: Seq<RunningTask>, pid: Pid) -> Option<Pid> {
    if st.tasks.contains_key(pid) {
        Some(st.tasks[pid].identity.process_group)
    } else if st.zombies.contains_key(pid) {
        Some(st.zombies[pid].process_group)
    } else {
        match running_of(running, pid) {
            Some(r) => Some(r.process_group),
            None => None,
        }
    }
}

/// Whether a wait with `selector` looks at `child`.
pub open spec fn spec_child_matches(st: ManagerState, running: Seq<RunningTask>, selector: WaitChildSelector, child: Pid) -> bool {
    match selector {
        WaitChildSelector::Any => true,
        WaitChildSelector::Pid(p) => child == p,
        WaitChildSelector::ProcessGroup(g) => spec_child_process_group(st, running, child) == Some(g),
    }
}

/// Whether a wait with `options` reports an event of `kind`.
pub open spec fn kind_matches_options(kind: ChildEventKind, options: u64) -> bool {
    match kind {
        ChildEventKind::Exited(_) => true,
        ChildEventKind::Stopped(_) => options & WUNTRACED != 0,
        ChildEventKind::Continued => options & WCONTINUED != 0,
    }
}

/// Whether a queued event is one `parent`'s wait with `selector` and `options` takes.
pub open spec fn event_matches(
    st: ManagerState,
    running: Seq<RunningTask>,
    e: (Pid, ChildEvent),
    parent: Pid,
    selector: WaitChildSelector,
    options: u64,
) -> bool {
    e.0 == parent && spec_child_matches(st, running, selector, e.1.pid) && kind_matches_options(e.1.kind, options)
}

/// The position of the first queued event, from `i`, that the wait takes.
pub open spec fn first_event_from(
    st: ManagerState,
    running: Seq<RunningTask>,
    parent: Pid,
    selector: WaitChildSelector,
    options: u64,
    i: int,
) -> Option<int>
    decreases st.child_events.len() - i,
{
    if i >= st.child_events.len() || i < 0 {
        None
    } else if event_matches(st, running, st.child_events[i], parent, selector, options) {
        Some(i)
    } else {
        first_event_from(st, running, parent, selector, options, i + 1)
    }
}

/// A wait by `parent`: the oldest of its queued events it takes, if any. When consuming,
/// the event leaves the queue, and an exit also takes the zombie away and unlinks it from
/// the parent the zombie names.
pub open spec fn spec_wait_child_event(
    st: ManagerState,
    running: Seq<RunningTask>,
    parent: Pid,
    selector: WaitChildSelector,
    options: u64,
    consume: bool,
) -> (ManagerState, Option<ChildEvent>) {
    match first_event_from(st, running, parent, selector, options, 0) {
        None => (st, None),
        Some(k) => {
            let e = st.child_events[k].1;
            if !consume {
                (st, Some(e))
            } else {
                let st1 = ManagerState { child_events: st.child_events.remove(k), ..st };
                if e.kind is Exited {
                    let zp = if st1.zombies.contains_key(e.pid) {
                        st1.zombies[e.pid].parent
                    } else {
                        None
                    };
                    (spec_untrack_child(ManagerState { zombies: st1.zombies.remove(e.pid), ..st1 }, zp, e.pid), Some(e))
                } else {
                    (st1, Some(e))
                }
            }
        },
    }
}

/// Whether `parent` has a child a wait with `selector` looks at.
pub open spec fn spec_has_waitable_child(st: ManagerState, running: Seq<RunningTask>, parent: Pid, selector: WaitChildSelector) -> bool {
    exists|c: Pid| st.parent_children.contains((parent, c)) && spec_child_matches(st, running, selector, c)
}

impl ProcessManager {
    /// The process group of a child; see `spec_child_process_group`.
    fn child_process_group(&self, pid: Pid, running: &Vec<RunningTask>) -> (r: Option<Pid>)
        ensures
            r == spec_child_process_group(self.state(Seq::empty()), running@, pid),
    {
        match self.tasks.get(&pid) {
            Some(t) => return Some(t.identity.process_group),
            None => {},
        }
        match self.zombies.get(&pid) {
            Some(z) => return Some(z.process_group),
            None => {},
        }
        match find_running(running, pid) {
            Some(r) => Some(r.process_group),
            None => None,
        }
    }

    /// Whether a wait with `selector` looks at `child`; see `spec_child_matches`.
    fn child_matches_wait_selector(&self, selector: WaitChildSelector, child: Pid, running: &Vec<RunningTask>) -> (r: bool)
        ensures
            r == spec_child_matches(self.state(Seq::empty()), running@, selector, child),
    {
        match selector {
            WaitChildSelector::Any => true,
            WaitChildSelector::Pid(p) => child == p,
            WaitChildSelector::ProcessGroup(g) => self.child_process_group(child, running) == Some(g),
        }
    }

    /// Whether `parent` has a child a wait with `selector` looks at.
    pub fn has_waitable_child(&self, parent: Pid, selector: WaitChildSelector, running: &Vec<RunningTask>) -> (r: bool)
        requires
            self.wf(),
        ensures
            r == spec_has_waitable_child(self.state(Seq::empty()), running@, parent, selector),
    {
        let children = seconds_in_order(&self.parent_children, parent);
        let ghost st = self.state(Seq::empty());
        let mut i: usize = 0;
        while i < children.len()
            invariant
                i <= children@.len(),
                st == self.state(Seq::empty()),
                children@.to_set() == seconds_of(st.parent_children, parent),
                forall|k: int| 0 <= k < i ==> !spec_child_matches(st, running@, selector, #[trigger] children@[k]),
            decreases children@.len() - i,
        {
            if self.child_matches_wait_selector(selector, children[i], running) {
                assert(children@.to_set().contains(children@[i as int]));
                return true;
            }
            i = i + 1;
        }
        proof {
            assert forall|c: Pid| st.parent_children.contains((parent, c)) implies !spec_child_matches(st, running@, selector, c) by {
                assert(children@.to_set().contains(c));
                let k = choose|k: int| 0 <= k < children@.len() && children@[k] == c;
                assert(!spec_child_matches(st, running@, selector, children@[k]));
            }
        }
        false
    }

    /// A wait by `parent`; see `spec_wait_child_event`.
    pub fn wait_child_event(
        &mut self,
        parent: Pid,
        selector: WaitChildSelector,
        options: u64,
        consume: bool,
        running: &Vec<RunningTask>,
    ) -> (r: Option<ChildEvent>)
        requires
            old(self).wf(),
        ensures
            final(self).wf(),
            final(self).next_pid() == old(self).next_pid(),
            ({
                let (st, e) = spec_wait_child_event(old(self).state(Seq::empty()), running@, parent, selector, options, consume);
                &&& forall|q: Seq<(Pid, usize)>| #[trigger] final(self).state(q) == (ManagerState { runnable: q, ..st })
                &&& r == e
            }),
    {
        let ghost st = self.state(Seq::empty());
        let mut i: usize = 0;
        let mut found = false;
        while i < self.child_events.len() && !found
            invariant
                i <= self.child_events@.len(),
                st == self.state(Seq::empty()),
                st == old(self).state(Seq::empty()),
                self.wf(),
                found ==> i < self.child_events@.len() && first_event_from(st, running@, parent, selector, options, 0) == Some(i as int),
                !found ==> first_event_from(st, running@, parent, selector, options, 0) == first_event_from(st, running@, parent, selector, options, i as int),
            decreases self.child_events@.len() - i + (if found { 0int } else { 1int }),
        {
            let e = self.child_events[i];
            if e.0 == parent && self.child_matches_wait_selector(selector, e.1.pid, running)
                && child_event_matches_options(e.1.kind, options) {
                found = true;
            } else {
                i = i + 1;
            }
        }
        if !found {
            return None;
        }
        let event = self.child_events[i].1;
        if !consume {
            return Some(event);
        }
        self.child_events.remove(i);
        match event.kind {
            ChildEventKind::Exited(_) => {
                let zp = match self.zombies.remove(&event.pid) {
                    Some(z) => z.parent,
                    None => None,
                };
                let ghost mid = self.state(Seq::empty());
                self.untrack_child_link(zp, event.pid);
                assert(self.state(Seq::empty()) == spec_untrack_child(mid, zp, event.pid));
            },
            _ => {},
        }
        Some(event)
    }
}


/// What a child event asks of others: the status word to write for a woken `wait4` (at the
/// address, in the parent's memory), and the `SIGCHLD` owed to the parent.
#[derive(Debug, Clone, Copy)]
pub struct ChildNotice {
    pub status_write: Option<(u64, i32)>,
    pub signal: Option<SignalInfo>,
}

/// The wait a task is blocked in, if it is.
pub open spec fn blocked_wait(st: ManagerState, p: Pid) -> Option<(WaitChildSelector, WaitChildApi, u64, u64)> {
    if st.tasks.contains_key(p) {
        match st.tasks[p].state {
            ProcessState::Blocked(ProcessBlock::WaitChild { selector, api, status_ptr, options, .. }) => Some(
                (selector, api, status_ptr, options),
            ),
            _ => None,
        }
    } else {
        None
    }
}

/// Takes the zombie `pid` away and unlinks it from the parent it names.
pub open spec fn spec_drop_zombie(st: ManagerState, pid: Pid) -> ManagerState {
    let zp = if st.zombies.contains_key(pid) {
        st.zombies[pid].parent
    } else {
        None
    };
    spec_untrack_child(ManagerState { zombies: st.zombies.remove(pid), ..st }, zp, pid)
}

/// An event of a child reaches `parent`: a parent blocked in a wait that takes it (and
/// does not poll with `WNOHANG`) is woken with the child's pid (`wait4`) or 0 (`waitid`);
/// a `wait4` gets the status word written and reaps an exited child. The event is queued
/// unless a `wait4` took it. A stop or continue owes the parent `SIGCHLD` unless its
/// `SIGCHLD` action (`sigchld_action`) has `SA_NOCLDSTOP`.
pub open spec fn spec_notify_child_event(
    st: ManagerState,
    running: Seq<RunningTask>,
    parent: Option<Pid>,
    event: ChildEvent,
    sigchld_action: Option<SignalAction>,
) -> (ManagerState, ChildNotice) {
    match parent {
        None => (st, ChildNotice { status_write: None, signal: None }),
        Some(pp) => {
            let w = blocked_wait(st, pp);
            let woken = w matches Some((sel, api, sp, opts)) && spec_child_matches(st, running, sel, event.pid)
                && kind_matches_options(event.kind, opts) && opts & 1 == 0;
            let (_, api, sp, _) = match w {
                Some(x) => x,
                None => (WaitChildSelector::Any, WaitChildApi::Wait4, 0u64, 0u64),
            };
            let t = st.tasks[pp];
            let st1 = if woken {
                let st_a = ManagerState {
                    tasks: st.tasks.insert(
                        pp,
                        TaskEntry {
                            wake_result: Some(
                                BlockResult::CompletedValue {
                                    value: if api is Wait4 {
                                        event.pid as u64
                                    } else {
                                        0
                                    },
                                },
                            ),
                            state: ProcessState::Runnable,
                            ..t
                        },
                    ),
                    runnable: st.runnable.push((pp, t.assigned_cpu)),
                    ..st
                };
                if api is Wait4 && event.kind is Exited {
                    spec_drop_zombie(st_a, event.pid)
                } else {
                    st_a
                }
            } else {
                st
            };
            let st2 = if !woken || api is WaitId {
                ManagerState { child_events: st1.child_events.push((pp, event)), ..st1 }
            } else {
                st1
            };
            let no_cldstop = sigchld_action matches Some(a) && a.flags & SA_NOCLDSTOP != 0;
            let signal = match event.kind {
                ChildEventKind::Exited(_) => None,
                ChildEventKind::Stopped(sig) => if !no_cldstop {
                    Some(SignalInfo { signal: SIGCHLD, code: CLD_STOPPED, status: sig as i32, pid: event.pid as i32, uid: 0 })
                } else {
                    None
                },
                ChildEventKind::Continued => if !no_cldstop {
                    Some(SignalInfo { signal: SIGCHLD, code: CLD_CONTINUED, status: 0, pid: event.pid as i32, uid: 0 })
                } else {
                    None
                },
            };
            (
                st2,
                ChildNotice {
                    status_write: if woken && api is Wait4 && sp != 0 {
                        Some((sp, spec_wait_status(event.kind)))
                    } else {
                        None
                    },
                    signal,
                },
            )
        },
    }
}

/// A parent blocked in `vfork` for `child` is woken with the child's pid.
pub open spec fn spec_wake_vfork_parent(st: ManagerState, parent: Pid, child: Pid) -> ManagerState {
    if st.tasks.contains_key(parent) && st.tasks[parent].state == ProcessState::Blocked(ProcessBlock::Vfork { child }) {
        let t = st.tasks[parent];
        ManagerState {
            tasks: st.tasks.insert(
                parent,
                TaskEntry {
                    wake_result: Some(BlockResult::CompletedValue { value: child as u64 }),
                    state: ProcessState::Runnable,
                    ..t
                },
            ),
            runnable: st.runnable.push((parent, t.assigned_cpu)),
            ..st
        }
    } else {
        st
    }
}

/// Makes the members of `ms` from position `i`, other than `current`, that the manager
/// holds and that have not exited, runnable; a blocked one leaves its indexes and is
/// woken as interrupted.
pub open spec fn spec_stop_members(st: ManagerState, ms: Seq<Pid>, i: int, current: Pid) -> ManagerState
    decreases ms.len() - i,
{
    if i >= ms.len() || i < 0 {
        st
    } else {
        let p = ms[i];
        let st1 = if p != current && st.tasks.contains_key(p) && !(st.tasks[p].state is Exited) {
            let t = st.tasks[p];
            let blocked = t.state is Blocked;
            let st_a = ManagerState {
                tasks: st.tasks.insert(
                    p,
                    TaskEntry {
                        state: ProcessState::Runnable,
                        wake_result: if blocked {
                            Some(BlockResult::SignalInterrupted)
                        } else {
                            t.wake_result
                        },
                        ..t
                    },
                ),
                runnable: st.runnable.push((p, t.assigned_cpu)),
                ..st
            };
            if blocked {
                spec_untrack(st_a, p, t.state)
            } else {
                st_a
            }
        } else {
            st
        };
        spec_stop_members(st1, ms, i + 1, current)
    }
}

/// A thread group starts to exit with `status`: the status is recorded and the other
/// members are made to run (`spec_stop_members`) so that they exit.
pub open spec fn spec_begin_group_exit(st: ManagerState, tgid: Pid, current: Pid, status: i32) -> ManagerState {
    spec_stop_members(
        ManagerState { group_exit_status: st.group_exit_status.insert(tgid, status), ..st },
        in_order(seconds_of(st.thread_groups, tgid)),
        0,
        current,
    )
}

/// A running task blocks in `block`: a futex wait whose armed wait was already woken
/// (same key and bitset) returns at once, woken; the armed wait is gone either way.
pub open spec fn spec_block(st: ManagerState, pid: Pid, t: TaskEntry, block: ProcessBlock) -> (ManagerState, TaskEntry) {
    match block {
        ProcessBlock::Futex { key, bitset, .. } => {
            let st1 = ManagerState { armed: st.armed.remove(pid), ..st };
            if st.armed.contains_key(pid) && st.armed[pid].key == key && st.armed[pid].bitset == bitset && st.armed[pid].raced_wake {
                (st1, TaskEntry { wake_result: Some(BlockResult::Futex { woke: true, timed_out: false }), state: ProcessState::Runnable, ..t })
            } else {
                (st1, TaskEntry { wake_result: None, state: ProcessState::Blocked(block), ..t })
            }
        },
        _ => (st, TaskEntry { wake_result: None, state: ProcessState::Blocked(block), ..t }),
    }
}

/// A task comes back to the manager: a runnable one is queued; a stopped or blocked one is
/// kept, made runnable with `file_ready` when it waits on files that are ready, else added
/// to the indexes; an exited one is left for reaping (its status is returned); a running
/// or faulted one is dropped.
pub open spec fn spec_requeue(st: ManagerState, t: TaskEntry, file_ready: Option<BlockResult>) -> (ManagerState, Option<i32>) {
    let pid = t.identity.pid;
    match t.state {
        ProcessState::Runnable => (
            ManagerState { tasks: st.tasks.insert(pid, t), runnable: st.runnable.push((pid, t.assigned_cpu)), ..st },
            None,
        ),
        ProcessState::Stopped(_) | ProcessState::Blocked(_) => {
            let waits_on_files = t.state matches ProcessState::Blocked(b) && (b is File || b is Poll);
            if waits_on_files && file_ready is Some {
                let t2 = TaskEntry { wake_result: file_ready, state: ProcessState::Runnable, ..t };
                (
                    ManagerState { tasks: st.tasks.insert(pid, t2), runnable: st.runnable.push((pid, t.assigned_cpu)), ..st },
                    None,
                )
            } else {
                let st1 = spec_track(st, pid, t.state);
                (ManagerState { tasks: st1.tasks.insert(pid, t), ..st1 }, None)
            }
        },
        ProcessState::Exited(status) => (st, Some(status)),
        _ => (st, None),
    }
}

impl ProcessManager {
    /// A child event reaches `parent`; see `spec_notify_child_event`.
    pub fn notify_child_event(
        &mut self,
        parent: Option<Pid>,
        event: ChildEvent,
        sigchld_action: Option<SignalAction>,
        running: &Vec<RunningTask>,
        runnable: &mut Vec<(Pid, usize)>,
    ) -> (r: ChildNotice)
        requires
            old(self).wf(),
        ensures
            final(self).wf(),
            final(self).next_pid() == old(self).next_pid(),
            (final(self).state(final(runnable)@), r) == spec_notify_child_event(
                old(self).state(old(runnable)@),
                running@,
                parent,
                event,
                sigchld_action,
            ),
    {
        let pp = match parent {
            Some(p) => p,
            None => return ChildNotice { status_write: None, signal: None },
        };
        let ghost st = self.state(runnable@);
        let mut woken = false;
        let mut preserve = false;
        let mut status_write: Option<(u64, i32)> = None;
        let held = match self.tasks.get(&pp) {
            Some(t) => Some(*t),
            None => None,
        };
        match held {
            Some(t) => match t.state {
                ProcessState::Blocked(ProcessBlock::WaitChild { selector, api, status_ptr, options, .. }) => {
                    assert(blocked_wait(st, pp) == Some((selector, api, status_ptr, options)));
                    if self.child_matches_wait_selector(selector, event.pid, running) && child_event_matches_options(event.kind, options)
                        && options & 1 == 0 {
                        woken = true;
                        let is_wait4 = match api {
                            WaitChildApi::Wait4 => true,
                            WaitChildApi::WaitId => false,
                        };
                        preserve = !is_wait4;
                        if is_wait4 && status_ptr != 0 {
                            status_write = Some((status_ptr, wait_status(event.kind)));
                        }
                        let value: u64 = if is_wait4 {
                            event.pid as u64
                        } else {
                            0
                        };
                        self.tasks.insert(
                            pp,
                            TaskEntry {
                                wake_result: Some(BlockResult::CompletedValue { value }),
                                state: ProcessState::Runnable,
                                ..t
                            },
                        );
                        runnable.push((pp, t.assigned_cpu));
                        let ghost st_a = self.state(runnable@);
                        assert(st_a == (ManagerState {
                            tasks: st.tasks.insert(
                                pp,
                                TaskEntry {
                                    wake_result: Some(BlockResult::CompletedValue { value }),
                                    state: ProcessState::Runnable,
                                    ..t
                                },
                            ),
                            runnable: st.runnable.push((pp, t.assigned_cpu)),
                            ..st
                        }));
                        let is_exit = match event.kind {
                            ChildEventKind::Exited(_) => true,
                            _ => false,
                        };
                        if is_wait4 && is_exit {
                            let zp = match self.zombies.remove(&event.pid) {
                                Some(z) => z.parent,
                                None => None,
                            };
                            let ghost mid = self.state(runnable@);
                            assert(mid == (ManagerState { zombies: st_a.zombies.remove(event.pid), ..st_a }));
                            self.untrack_child_link(zp, event.pid);
                            assert(self.state(runnable@) == spec_untrack_child(mid, zp, event.pid));
                            assert(self.state(runnable@) == spec_drop_zombie(st_a, event.pid));
                        }
                    }
                },
                _ => {
                    assert(blocked_wait(st, pp) is None);
                },
            },
            None => {
                assert(blocked_wait(st, pp) is None);
            },
        }
        if !woken || preserve {
            self.child_events.push((pp, event));
        }
        let no_cldstop = match sigchld_action {
            Some(a) => a.flags & SA_NOCLDSTOP != 0,
            None => false,
        };
        let signal = match event.kind {
            ChildEventKind::Exited(_) => None,
            ChildEventKind::Stopped(sig) => if !no_cldstop {
                Some(SignalInfo::child_stop(event.pid, sig))
            } else {
                None
            },
            ChildEventKind::Continued => if !no_cldstop {
                Some(SignalInfo::child_continue(event.pid))
            } else {
                None
            },
        };
        ChildNotice { status_write, signal }
    }

    /// Wakes a parent blocked in `vfork` for `child`; see `spec_wake_vfork_parent`.
    pub fn wake_vfork_parent(&mut self, parent: Pid, child: Pid, runnable: &mut Vec<(Pid, usize)>)
        requires
            old(self).wf(),
        ensures
            final(self).wf(),
            final(self).next_pid() == old(self).next_pid(),
            final(self).state(final(runnable)@) == spec_wake_vfork_parent(old(self).state(old(runnable)@), parent, child),
    {
        let t = match self.tasks.get(&parent) {
            Some(t) => *t,
            None => return,
        };
        if t.state == ProcessState::Blocked(ProcessBlock::Vfork { child }) {
            self.tasks.insert(
                parent,
                TaskEntry {
                    wake_result: Some(BlockResult::CompletedValue { value: child as u64 }),
                    state: ProcessState::Runnable,
                    ..t
                },
            );
            runnable.push((parent, t.assigned_cpu));
        }
    }

    /// Thread group `tgid` starts to exit; see `spec_begin_group_exit`.
    pub fn begin_thread_group_exit(&mut self, tgid: Pid, current: Pid, status: i32, runnable: &mut Vec<(Pid, usize)>)
        requires
            old(self).wf(),
        ensures
            final(self).wf(),
            final(self).next_pid() == old(self).next_pid(),
            final(self).state(final(runnable)@) == spec_begin_group_exit(old(self).state(old(runnable)@), tgid, current, status),
    {
        let ghost st0 = self.state(runnable@);
        self.group_exit_status.insert(tgid, status);
        let ms = self.members_of(tgid);
        let ghost st1 = self.state(runnable@);
        assert(st1 == (ManagerState { group_exit_status: st0.group_exit_status.insert(tgid, status), ..st0 }));
        let mut i: usize = 0;
        while i < ms.len()
            invariant
                i <= ms@.len(),
                self.wf(),
                self.next_pid() == old(self).next_pid(),
                spec_stop_members(self.state(runnable@), ms@, i as int, current) == spec_stop_members(st1, ms@, 0, current),
            decreases ms@.len() - i,
        {
            let p = ms[i];
            if p != current {
                match self.tasks.get(&p) {
                    Some(t) => {
                        let t = *t;
                        let exited = match t.state {
                            ProcessState::Exited(_) => true,
                            _ => false,
                        };
                        if !exited {
                            let blocked = match t.state {
                                ProcessState::Blocked(_) => true,
                                _ => false,
                            };
                            self.tasks.insert(
                                p,
                                TaskEntry {
                                    state: ProcessState::Runnable,
                                    wake_result: if blocked {
                                        Some(BlockResult::SignalInterrupted)
                                    } else {
                                        t.wake_result
                                    },
                                    ..t
                                },
                            );
                            runnable.push((p, t.assigned_cpu));
                            if blocked {
                                self.untrack_blocked_process(p, t.state);
                            }
                        }
                    },
                    None => {},
                }
            }
            i = i + 1;
        }
    }

    /// A running task blocks in `block`; see `spec_block`.
    pub fn block_from_disposition(&mut self, pid: Pid, task: &mut TaskEntry, block: ProcessBlock)
        requires
            old(self).wf(),
        ensures
            final(self).wf(),
            final(self).next_pid() == old(self).next_pid(),
            ({
                let (st, t) = spec_block(old(self).state(Seq::empty()), pid, *old(task), block);
                &&& forall|q: Seq<(Pid, usize)>| #[trigger] final(self).state(q) == (ManagerState { runnable: q, ..st })
                &&& *final(task) == t
            }),
    {
        task.wake_result = None;
        match block {
            ProcessBlock::Futex { key, bitset, .. } => {
                match self.take_armed_futex_wait(pid) {
                    Some(armed) => {
                        if armed.key == key && armed.bitset == bitset && armed.raced_wake {
                            task.wake_result = Some(BlockResult::Futex { woke: true, timed_out: false });
                            task.state = ProcessState::Runnable;
                            return;
                        }
                    },
                    None => {},
                }
            },
            _ => {},
        }
        task.state = ProcessState::Blocked(block);
    }

    /// A task comes back to the manager; see `spec_requeue`. `file_ready` is what a poll of
    /// the files it waits on found, if they are ready.
    pub fn requeue_process(&mut self, task: TaskEntry, file_ready: Option<BlockResult>, runnable: &mut Vec<(Pid, usize)>) -> (r: Option<i32>)
        requires
            old(self).wf(),
        ensures
            final(self).wf(),
            final(self).next_pid() == old(self).next_pid(),
            (final(self).state(final(runnable)@), r) == spec_requeue(old(self).state(old(runnable)@), task, file_ready),
    {
        let pid = task.identity.pid;
        match task.state {
            ProcessState::Runnable => {
                let ghost st0 = self.state(runnable@);
                runnable.push((pid, task.assigned_cpu));
                self.tasks.insert(pid, task);
                assert(self.state(runnable@) == (ManagerState { tasks: st0.tasks.insert(pid, task), runnable: st0.runnable.push((pid, task.assigned_cpu)), ..st0 }));
                assert(spec_requeue(st0, task, file_ready).0 == (ManagerState { tasks: st0.tasks.insert(pid, task), runnable: st0.runnable.push((pid, task.assigned_cpu)), ..st0 }));
                None
            },
            ProcessState::Stopped(_) | ProcessState::Blocked(_) => {
                let waits_on_files = match task.state {
                    ProcessState::Blocked(ProcessBlock::File { .. }) => true,
                    ProcessState::Blocked(ProcessBlock::Poll { .. }) => true,
                    _ => false,
                };
                if waits_on_files && file_ready.is_some() {
                    let t2 = TaskEntry { wake_result: file_ready, state: ProcessState::Runnable, ..task };
                    runnable.push((pid, task.assigned_cpu));
                    self.tasks.insert(pid, t2);
                } else {
                    let ghost st0 = self.state(runnable@);
                    self.track_blocked_process(pid, task.state);
                    proof {
                        lemma_track_keeps(st0, pid, task.state);
                    }
                    self.tasks.insert(pid, task);
                }
                None
            },
            ProcessState::Exited(status) => Some(status),
            _ => None,
        }
    }
}


/// What reaping an exited task asks of others: the `SIGCHLD` for its parent, the status
/// word for a `wait4` it wakes, and whether it is gone at once (no zombie kept), so that
/// its pidfd reads as reaped.
#[derive(Debug, Clone, Copy)]
pub struct ReapNotice {
    pub parent_signal: Option<(Pid, SignalInfo)>,
    pub status_write: Option<(u64, i32)>,
    pub reaped: bool,
}

/// The `SIGCHLD` of a child `pid` that exited with `status`.
pub open spec fn spec_child_exit(pid: Pid, status: i32) -> SignalInfo {
    if status >= 128 {
        SignalInfo { signal: SIGCHLD, code: CLD_KILLED, status: (status - 128) as i32, pid: pid as i32, uid: 0 }
    } else {
        SignalInfo { signal: SIGCHLD, code: CLD_EXITED, status, pid: pid as i32, uid: 0 }
    }
}

/// Reaping an exited task: its armed futex wait goes, a parent waiting in `vfork` for it
/// is woken, and it leaves its thread group. A thread is then gone. A process owes its
/// parent `SIGCHLD` unless the parent ignores it; with no parent, an ignored `SIGCHLD` or
/// `SA_NOCLDWAIT` it is gone at once; otherwise it stays as a zombie and its exit reaches
/// the parent (`spec_notify_child_event`).
pub open spec fn spec_reap(
    st: ManagerState,
    running: Seq<RunningTask>,
    t: TaskEntry,
    status: i32,
    vfork_parent: Option<Pid>,
    parent_sigchld: Option<SignalAction>,
) -> (ManagerState, ReapNotice) {
    let pid = t.identity.pid;
    let tgid = t.identity.thread_group;
    let st1 = ManagerState { armed: st.armed.remove(pid), ..st };
    let st2 = match vfork_parent {
        Some(vp) => spec_wake_vfork_parent(st1, vp, pid),
        None => st1,
    };
    let st3 = spec_untrack_group(st2, tgid, pid);
    if tgid != pid {
        (st3, ReapNotice { parent_signal: None, status_write: None, reaped: true })
    } else {
        let parent = t.identity.parent;
        let ignore = parent_sigchld matches Some(a) && a.handler == SIG_IGN;
        let no_cldwait = parent_sigchld matches Some(a) && a.flags & SA_NOCLDWAIT != 0;
        let parent_signal = if parent is Some && !ignore {
            Some((parent->0, spec_child_exit(pid, status)))
        } else {
            None
        };
        if parent is None || ignore || no_cldwait {
            (spec_untrack_child(st3, parent, pid), ReapNotice { parent_signal, status_write: None, reaped: true })
        } else {
            let st4 = ManagerState {
                zombies: st3.zombies.insert(pid, ZombieProcess { parent, process_group: t.identity.process_group }),
                ..st3
            };
            let (st5, notice) = spec_notify_child_event(
                st4,
                running,
                parent,
                ChildEvent { pid, kind: ChildEventKind::Exited(status) },
                parent_sigchld,
            );
            (st5, ReapNotice { parent_signal, status_write: notice.status_write, reaped: false })
        }
    }
}

impl ProcessManager {
    /// Reaps an exited task; see `spec_reap`. `vfork_parent` is the parent waiting for it in
    /// `vfork`, `parent_sigchld` the parent's `SIGCHLD` action.
    pub fn reap_exited_process(
        &mut self,
        task: TaskEntry,
        status: i32,
        vfork_parent: Option<Pid>,
        parent_sigchld: Option<SignalAction>,
        running: &Vec<RunningTask>,
        runnable: &mut Vec<(Pid, usize)>,
    ) -> (r: ReapNotice)
        requires
            old(self).wf(),
        ensures
            final(self).wf(),
            final(self).next_pid() == old(self).next_pid(),
            (final(self).state(final(runnable)@), r) == spec_reap(
                old(self).state(old(runnable)@),
                running@,
                task,
                status,
                vfork_parent,
                parent_sigchld,
            ),
    {
        let pid = task.identity.pid;
        let tgid = task.identity.thread_group;
        let ghost st0 = self.state(runnable@);
        self.disarm_futex_wait(pid);
        let ghost st1 = self.state(runnable@);
        match vfork_parent {
            Some(vp) => self.wake_vfork_parent(vp, pid, runnable),
            None => {},
        }
        let ghost st2 = self.state(runnable@);
        self.untrack_thread_group(tgid, pid);
        assert(self.state(runnable@) == spec_untrack_group(st2, tgid, pid));
        if tgid != pid {
            return ReapNotice { parent_signal: None, status_write: None, reaped: true };
        }
        let parent = task.identity.parent;
        let ignore = match parent_sigchld {
            Some(a) => a.handler == SIG_IGN,
            None => false,
        };
        let no_cldwait = match parent_sigchld {
            Some(a) => a.flags & SA_NOCLDWAIT != 0,
            None => false,
        };
        let parent_signal = match parent {
            Some(pp) => if !ignore {
                Some((pp, SignalInfo::child_exit(pid, status)))
            } else {
                None
            },
            None => None,
        };
        if parent.is_none() || ignore || no_cldwait {
            let ghost st3 = self.state(runnable@);
            self.untrack_child_link(parent, pid);
            assert(self.state(runnable@) == spec_untrack_child(st3, parent, pid));
            return ReapNotice { parent_signal, status_write: None, reaped: true };
        }
        self.zombies.insert(pid, ZombieProcess { parent, process_group: task.identity.process_group });
        let notice = self.notify_child_event(
            parent,
            ChildEvent { pid, kind: ChildEventKind::Exited(status) },
            parent_sigchld,
            running,
            runnable,
        );
        ReapNotice { parent_signal, status_write: notice.status_write, reaped: false }
    }
}


/// What a task woken because its files became ready gets: a file wait is ready, a poll is
/// not timed out; `None` for any other state.
pub open spec fn file_wake_result(t: TaskEntry) -> Option<BlockResult> {
    match t.state {
        ProcessState::Blocked(ProcessBlock::File { .. }) => Some(BlockResult::File { ready: true }),
        ProcessState::Blocked(ProcessBlock::Poll { .. }) => Some(BlockResult::Poll { timed_out: false }),
        _ => None,
    }
}

/// Wakes the tasks of `order`, from position `i`, as `file_wake_result` says.
pub open spec fn spec_wake_file_waiters(st: ManagerState, order: Seq<Pid>, i: int) -> ManagerState
    decreases order.len() - i,
{
    if i >= order.len() || i < 0 {
        st
    } else {
        let p = order[i];
        let st1 = if st.tasks.contains_key(p) && file_wake_result(st.tasks[p]) is Some {
            spec_wake_with_result(st, p, file_wake_result(st.tasks[p])->0)
        } else {
            st
        };
        spec_wake_file_waiters(st1, order, i + 1)
    }
}

/// Inserts `x` into the ascending `v`, once.
fn insert_sorted(v: &mut Vec<Pid>, x: Pid)
    requires
        ascending(old(v)@),
    ensures
        ascending(final(v)@),
        final(v)@.to_set() == old(v)@.to_set().insert(x),
{
    let ghost before = v@;
    let mut j: usize = 0;
    while j < v.len() && v[j] < x
        invariant
            j <= before.len(),
            v@ == before,
            ascending(before),
            forall|k: int| 0 <= k < j ==> before[k] < x,
        decreases before.len() - j,
    {
        j = j + 1;
    }
    if j < v.len() && v[j] == x {
        assert(before.to_set().contains(x));
        assert(before.to_set().insert(x) =~= before.to_set());
        return;
    }
    proof {
        assert forall|k: int| j <= k < before.len() implies before[k] > x by {
            assert(before[j as int] >= x && before[j as int] != x);
            if k > j {
                assert(before[j as int] < before[k]);
            }
        }
    }
    v.insert(j, x);
    proof {
        let after = v@;
        assert(after =~= before.take(j as int).push(x) + before.skip(j as int));
        assert forall|a: int, b: int| 0 <= a < b < after.len() implies after[a] < after[b] by {
            if b < j {
                assert(after[a] == before[a] && after[b] == before[b]);
            } else if b == j {
                assert(after[a] == before[a]);
            } else if a == j {
                assert(after[b] == before[b - 1]);
            } else if a < j {
                assert(after[a] == before[a] && after[b] == before[b - 1]);
            } else {
                assert(after[a] == before[a - 1] && after[b] == before[b - 1]);
            }
        }
        assert forall|e: Pid| after.to_set().contains(e) == before.to_set().insert(x).contains(e) by {
            if after.to_set().contains(e) {
                let a = choose|a: int| 0 <= a < after.len() && after[a] == e;
                if a < j {
                    assert(before[a] == e);
                } else if a > j {
                    assert(before[a - 1] == e);
                }
            }
            if before.to_set().contains(e) {
                let b = choose|b: int| 0 <= b < before.len() && before[b] == e;
                if b < j {
                    assert(after[b] == e);
                } else {
                    assert(after[b + 1] == e);
                }
            }
            if e == x {
                assert(after[j as int] == e);
            }
        }
        assert(after.to_set() =~= before.to_set().insert(x));
    }
}

impl ProcessManager {
    /// Wakes the tasks whose file waits were signalled, `ready` as the waiters queued them:
    /// each pid once, by pid (`spec_wake_file_waiters`).
    pub fn wake_ready_file_blocks(&mut self, ready: &Vec<Pid>, runnable: &mut Vec<(Pid, usize)>)
        requires
            old(self).wf(),
        ensures
            final(self).wf(),
            final(self).next_pid() == old(self).next_pid(),
            final(self).state(final(runnable)@) == spec_wake_file_waiters(
                old(self).state(old(runnable)@),
                in_order(ready@.to_set()),
                0,
            ),
    {
        let mut order: Vec<Pid> = Vec::new();
        let mut k: usize = 0;
        while k < ready.len()
            invariant
                k <= ready@.len(),
                ascending(order@),
                order@.to_set() == ready@.take(k as int).to_set(),
            decreases ready@.len() - k,
        {
            insert_sorted(&mut order, ready[k]);
            proof {
                assert(ready@.take(k + 1) == ready@.take(k as int).push(ready@[k as int]));
                ready@.take(k as int).lemma_push_to_set_commute(ready@[k as int]);
            }
            k = k + 1;
        }
        proof {
            assert(ready@.take(ready@.len() as int) =~= ready@);
            lemma_in_order(order@);
        }
        let ghost st0 = self.state(runnable@);
        let mut i: usize = 0;
        while i < order.len()
            invariant
                i <= order@.len(),
                self.wf(),
                self.next_pid() == old(self).next_pid(),
                spec_wake_file_waiters(self.state(runnable@), order@, i as int) == spec_wake_file_waiters(st0, order@, 0),
            decreases order@.len() - i,
        {
            let pid = order[i];
            match self.tasks.get(&pid) {
                Some(t) => {
                    let result = match t.state {
                        ProcessState::Blocked(ProcessBlock::File { .. }) => Some(BlockResult::File { ready: true }),
                        ProcessState::Blocked(ProcessBlock::Poll { .. }) => Some(BlockResult::Poll { timed_out: false }),
                        _ => None,
                    };
                    match result {
                        Some(res) => self.wake_process_with_result(pid, res, runnable),
                        None => {},
                    }
                },
                None => {},
            }
            i = i + 1;
        }
    }
}


/// Every finite set of pids has an ascending arrangement, the one `in_order` names.
pub proof fn lemma_in_order_exists(s: Set<Pid>)
    requires
        s.finite(),
    ensures
        ascending(in_order(s)),
        in_order(s).to_set() == s,
    decreases s.len(),
{
    if s.len() == 0 {
        let e = Seq::<Pid>::empty();
        assert(e.to_set() =~= s);
        assert(ascending(e) && e.to_set() == s);
    } else {
        let leq = |a: Pid, b: Pid| a <= b;
        assert(vstd::relations::total_ordering(leq)) by {
            assert(vstd::relations::reflexive(leq));
            assert(vstd::relations::antisymmetric(leq));
            assert(vstd::relations::transitive(leq));
            assert(vstd::relations::strongly_connected(leq));
        }
        s.find_unique_maximal_ensures(leq);
        let m = s.find_unique_maximal(leq);
        assert(s.contains(m));
        let rest = s.remove(m);
        assert(rest.len() < s.len());
        lemma_in_order_exists(rest);
        let q = in_order(rest);
        let q2 = q.push(m);
        assert forall|x: Pid| s.contains(x) implies x <= m by {
            assert(leq(x, m) || leq(m, x));
            if leq(m, x) {
                assert(leq(x, m));
            }
        }
        assert forall|i: int, j: int| 0 <= i < j < q2.len() implies q2[i] < q2[j] by {
            if j == q.len() {
                assert(q.to_set().contains(q[i]));
                assert(rest.contains(q2[i]));
                assert(q2[i] != m);
            } else {
                assert(q2[i] == q[i] && q2[j] == q[j]);
            }
        }
        assert forall|x: Pid| q2.to_set().contains(x) == s.contains(x) by {
            if q2.to_set().contains(x) {
                let i = choose|i: int| 0 <= i < q2.len() && q2[i] == x;
                if i < q.len() {
                    assert(q.to_set().contains(q[i]));
                }
            }
            if s.contains(x) && x != m {
                assert(rest.contains(x));
                assert(q.to_set().contains(x));
                let i = choose|i: int| 0 <= i < q.len() && q[i] == x;
                assert(q2[i] == x);
            }
            if x == m {
                assert(q2[q.len() as int] == m);
            }
        }
        assert(q2.to_set() =~= s);
        assert(ascending(q2) && q2.to_set() == s);
    }
}

proof fn lemma_wake_armed_none(
    m: Map<Pid, ArmedFutexWait>,
    order: Seq<Pid>,
    i: int,
    key: FutexKey,
    bitset: u32,
    count: int,
)
    requires
        0 <= i,
        forall|j: int| i <= j < order.len() ==> !armed_matches(m[#[trigger] order[j]], key, bitset),
    ensures
        spec_wake_armed_from(m, order, i, key, bitset, count) == (m, 0int),
    decreases order.len() - i,
{
    if i >= order.len() || count <= 0 {
    } else {
        lemma_wake_armed_none(m, order, i + 1, key, bitset, count);
    }
}

proof fn lemma_wake_armed_single(
    m: Map<Pid, ArmedFutexWait>,
    order: Seq<Pid>,
    i: int,
    key: FutexKey,
    bitset: u32,
    count: int,
    pid: Pid,
)
    requires
        0 <= i,
        ascending(order),
        count >= 1,
        exists|k: int| i <= k < order.len() && order[k] == pid,
        armed_matches(m[pid], key, bitset),
        forall|j: int| i <= j < order.len() && order[j] != pid ==> !armed_matches(m[#[trigger] order[j]], key, bitset),
    ensures
        spec_wake_armed_from(m, order, i, key, bitset, count).1 == 1,
        spec_wake_armed_from(m, order, i, key, bitset, count).0[pid] == (ArmedFutexWait { raced_wake: true, ..m[pid] }),
    decreases order.len() - i,
{
    let k = choose|k: int| i <= k < order.len() && order[k] == pid;
    if order[i] == pid {
        let m2 = m.insert(pid, ArmedFutexWait { raced_wake: true, ..m[pid] });
        assert forall|j: int| i + 1 <= j < order.len() implies !armed_matches(m2[#[trigger] order[j]], key, bitset) by {
            assert(order[i] < order[j]);
        }
        lemma_wake_armed_none(m2, order, i + 1, key, bitset, count - 1);
    } else {
        assert(k > i);
        lemma_wake_armed_single(m, order, i + 1, key, bitset, count, pid);
    }
}

/// A futex wake between a task arming its wait and blocking is not lost: when the task's
/// armed wait is the only one the wake reaches, the wake counts it, and the task's block
/// on that futex returns at once, woken, with the armed wait gone.
pub proof fn lemma_armed_wake_not_lost(
    st: ManagerState,
    pid: Pid,
    key: FutexKey,
    bitset: u32,
    wake_bitset: u32,
    count: int,
    t: TaskEntry,
    deadline: Option<u64>,
)
    requires
        st.armed.dom().finite(),
        bitset & wake_bitset != 0,
        count >= 1,
        forall|p: Pid| #[trigger] st.armed.contains_key(p) && p != pid ==> !armed_matches(st.armed[p], key, wake_bitset),
    ensures
        ({
            let st1 = ManagerState { armed: st.armed.insert(pid, ArmedFutexWait { key, bitset, raced_wake: false }), ..st };
            let (st2, n) = spec_wake_futex(st1, key, wake_bitset, count);
            let (st3, t3) = spec_block(st2, pid, t, ProcessBlock::Futex { key, bitset, deadline_nanos: deadline });
            &&& n >= 1
            &&& t3.state == ProcessState::Runnable
            &&& t3.wake_result == Some(BlockResult::Futex { woke: true, timed_out: false })
            &&& !st3.armed.contains_key(pid)
        }),
{
    let m1 = st.armed.insert(pid, ArmedFutexWait { key, bitset, raced_wake: false });
    assert(m1.dom() =~= st.armed.dom().insert(pid));
    lemma_in_order_exists(m1.dom());
    let order = in_order(m1.dom());
    assert(order.to_set().contains(pid));
    let k = choose|k: int| 0 <= k < order.len() && order[k] == pid;
    assert forall|j: int| 0 <= j < order.len() && order[j] != pid implies !armed_matches(m1[#[trigger] order[j]], key, wake_bitset) by {
        assert(order.to_set().contains(order[j]));
        assert(st.armed.contains_key(order[j]));
    }
    lemma_wake_armed_single(m1, order, 0, key, wake_bitset, count, pid);
    let (m2, n) = spec_wake_armed(m1, key, wake_bitset, count);
    assert(m2[pid].raced_wake && m2[pid].key == key && m2[pid].bitset == bitset);
    let st1 = ManagerState { armed: m1, ..st };
    let (st2, n2) = spec_wake_futex(st1, key, wake_bitset, count);
    assert(st2.armed == m2 && n2 >= 1) by {
        if n < count {
            lemma_wake_blocked_bound(
                ManagerState { armed: m2, ..st1 },
                in_order(futex_waiters(st1.blocked_futexes, key)),
                0,
                key,
                wake_bitset,
                count - n,
            );
            lemma_wake_blocked_keeps_armed(
                ManagerState { armed: m2, ..st1 },
                in_order(futex_waiters(st1.blocked_futexes, key)),
                0,
                key,
                wake_bitset,
                count - n,
            );
        }
    }
    assert(m2.contains_key(pid)) by {
        assert forall|j: int| 0 <= j < order.len() implies m1.contains_key(#[trigger] order[j]) by {
            assert(order.to_set().contains(order[j]));
        }
        lemma_wake_armed_dom(m1, order, 0, key, wake_bitset, count);
        assert(m1.contains_key(pid));
    }
}

proof fn lemma_wake_armed_dom(m: Map<Pid, ArmedFutexWait>, order: Seq<Pid>, i: int, key: FutexKey, bitset: u32, count: int)
    requires
        forall|j: int| 0 <= j < order.len() ==> m.contains_key(#[trigger] order[j]),
    ensures
        spec_wake_armed_from(m, order, i, key, bitset, count).0.dom() == m.dom(),
    decreases order.len() - i,
{
    if i >= order.len() || i < 0 || count <= 0 {
    } else {
        let p = order[i];
        if armed_matches(m[p], key, bitset) {
            let m2 = m.insert(p, ArmedFutexWait { raced_wake: true, ..m[p] });
            assert(m2.dom() =~= m.dom());
            lemma_wake_armed_dom(m2, order, i + 1, key, bitset, count - 1);
        } else {
            lemma_wake_armed_dom(m, order, i + 1, key, bitset, count);
        }
    }
}

proof fn lemma_wake_blocked_keeps_armed(st: ManagerState, order: Seq<Pid>, i: int, key: FutexKey, bitset: u32, count: int)
    ensures
        spec_wake_blocked_from(st, order, i, key, bitset, count).0.armed == st.armed,
    decreases order.len() - i,
{
    if i >= order.len() || i < 0 || count <= 0 {
    } else {
        let p = order[i];
        if st.tasks.contains_key(p) && futex_wait_matches(st.tasks[p], key, bitset) {
            let st1 = spec_wake_with_result(st, p, BlockResult::Futex { woke: true, timed_out: false });
            lemma_untrack_keeps(st, p, st.tasks[p].state);
            lemma_wake_blocked_keeps_armed(st1, order, i + 1, key, bitset, count - 1);
        } else {
            lemma_wake_blocked_keeps_armed(st, order, i + 1, key, bitset, count);
        }
    }
}

proof fn lemma_wake_armed_bound(m: Map<Pid, ArmedFutexWait>, order: Seq<Pid>, i: int, key: FutexKey, bitset: u32, count: int)
    ensures
        0 <= spec_wake_armed_from(m, order, i, key, bitset, count).1,
        count >= 0 ==> spec_wake_armed_from(m, order, i, key, bitset, count).1 <= count,
    decreases order.len() - i,
{
    if i >= order.len() || i < 0 || count <= 0 {
    } else {
        let p = order[i];
        if armed_matches(m[p], key, bitset) {
            lemma_wake_armed_bound(m.insert(p, ArmedFutexWait { raced_wake: true, ..m[p] }), order, i + 1, key, bitset, count - 1);
        } else {
            lemma_wake_armed_bound(m, order, i + 1, key, bitset, count);
        }
    }
}

proof fn lemma_wake_blocked_bound(st: ManagerState, order: Seq<Pid>, i: int, key: FutexKey, bitset: u32, count: int)
    ensures
        0 <= spec_wake_blocked_from(st, order, i, key, bitset, count).1,
        count >= 0 ==> spec_wake_blocked_from(st, order, i, key, bitset, count).1 <= count,
    decreases order.len() - i,
{
    if i >= order.len() || i < 0 || count <= 0 {
    } else {
        let p = order[i];
        if st.tasks.contains_key(p) && futex_wait_matches(st.tasks[p], key, bitset) {
            lemma_wake_blocked_bound(
                spec_wake_with_result(st, p, BlockResult::Futex { woke: true, timed_out: false }),
                order,
                i + 1,
                key,
                bitset,
                count - 1,
            );
        } else {
            lemma_wake_blocked_bound(st, order, i + 1, key, bitset, count);
        }
    }
}

/// A futex wake reaches at most `count` waiters, armed and blocked together.
pub proof fn lemma_wake_futex_bound(st: ManagerState, key: FutexKey, bitset: u32, count: int)
    requires
        count >= 0,
    ensures
        0 <= spec_wake_futex(st, key, bitset, count).1 <= count,
{
    lemma_wake_armed_bound(st.armed, in_order(st.armed.dom()), 0, key, bitset, count);
    let (armed, n) = spec_wake_armed(st.armed, key, bitset, count);
    let st1 = ManagerState { armed, ..st };
    if n < count {
        lemma_wake_blocked_bound(st1, in_order(futex_waiters(st1.blocked_futexes, key)), 0, key, bitset, count - n);
    }
}



proof fn lemma_timer_waiters_shrink(st: ManagerState, order: Seq<Pid>, i: int)
    ensures
        spec_wake_timer_waiters(st, order, i).blocked_timers.subset_of(st.blocked_timers),
    decreases order.len() - i,
{
    if i >= order.len() || i < 0 {
    } else {
        let p = order[i];
        let st1 = if st.tasks.contains_key(p) && timer_wake_result(st.tasks[p]) is Some {
            spec_wake_with_result(st, p, timer_wake_result(st.tasks[p])->0)
        } else {
            st
        };
        if st.tasks.contains_key(p) && timer_wake_result(st.tasks[p]) is Some {
            lemma_wake_shrinks_timers(st, p, timer_wake_result(st.tasks[p])->0);
        }
        lemma_timer_waiters_shrink(st1, order, i + 1);
    }
}

/// Once the deadlines passed at `now` are served, none at or before `now` is left, and
/// the cached deadline is the earliest one left.
pub proof fn lemma_wake_expired_settles(st: ManagerState, now: u64)
    requires
        st.blocked_timers.finite(),
    ensures
        spec_wake_expired(st, now).next_timer_deadline == first_deadline(spec_wake_expired(st, now).blocked_timers),
        forall|e: (u64, u64)| #[trigger] spec_wake_expired(st, now).blocked_timers.contains(e) ==> e.0 > now,
    decreases st.blocked_timers.len(),
{
    let s = st.blocked_timers;
    match first_deadline(s) {
        None => {
            if s.len() > 0 {
                lemma_earliest_exists(s);
            }
            assert(s.len() == 0);
            assert forall|e: (u64, u64)| !s.contains(e) by {
                if s.contains(e) {
                    assert(s.remove(e).len() + 1 == s.len()) by {
                        vstd::set::axiom_set_remove_len(s, e);
                    }
                }
            }
        },
        Some(d) => {
            assert(is_earliest(s, d));
            if d > now {
            } else {
                let st1 = ManagerState { blocked_timers: s.filter(|e: (u64, u64)| e.0 != d), ..st };
                let order = in_order(timer_waiters(s, d));
                let st2 = spec_wake_timer_waiters(st1, order, 0);
                lemma_timer_waiters_shrink(st1, order, 0);
                let id0 = choose|id: u64| s.contains((d, id));
                assert(st1.blocked_timers.subset_of(s.remove((d, id0))));
                vstd::set_lib::lemma_len_subset(st1.blocked_timers, s.remove((d, id0)));
                vstd::set::axiom_set_remove_len(s, (d, id0));
                vstd::set_lib::lemma_len_subset(st2.blocked_timers, st1.blocked_timers);
                assert(st2.blocked_timers.len() < s.len());
                lemma_wake_expired_settles(st2, now);
            }
        },
    }
}


/// What a signal's arrival asks of whoever holds the task's signal state: the parent's
/// notice of a stopped task continued by `SIGCONT`, and whether the task leaves
/// `sigsuspend` (its saved mask comes back).
#[derive(Debug, Clone, Copy)]
pub struct SignalWake {
    pub continued: Option<ChildNotice>,
    pub leave_sigsuspend: bool,
}

/// A signal `signal` has been queued on the task `pid`, after which a signal of it is
/// `deliverable` or not. `SIGCONT` resumes a stopped task (its parent learns of it). A
/// deliverable signal ends `sigsuspend`, and interrupts a sleep (which reports the time
/// left until its target at `now_nanos`, or completes when it has passed), a poll or a
/// futex wait. A task that becomes runnable goes to its run queue, once.
pub open spec fn spec_notify_signal(
    st: ManagerState,
    running: Seq<RunningTask>,
    pid: Pid,
    signal: u8,
    deliverable: bool,
    now_nanos: u64,
    parent_sigchld: Option<SignalAction>,
) -> (ManagerState, SignalWake) {
    if !st.tasks.contains_key(pid) {
        (st, SignalWake { continued: None, leave_sigsuspend: false })
    } else {
        let t0 = st.tasks[pid];
        let cont = signal == SIGCONT && t0.state is Stopped;
        let t1 = if cont {
            TaskEntry { state: ProcessState::Runnable, ..t0 }
        } else {
            t0
        };
        let (t2, unblock, leave, woke) = if !deliverable {
            (t1, None, false, false)
        } else {
            match t1.state {
                ProcessState::Blocked(ProcessBlock::SignalSuspend) => (
                    TaskEntry { wake_result: Some(BlockResult::SignalInterrupted), state: ProcessState::Runnable, ..t1 },
                    None,
                    true,
                    true,
                ),
                ProcessState::Blocked(ProcessBlock::Timer { target_nanos, rmtp, flags, .. }) => (
                    TaskEntry {
                        wake_result: Some(
                            if now_nanos < target_nanos {
                                BlockResult::Timer {
                                    completed: false,
                                    remaining_nanos: (target_nanos - now_nanos) as u64,
                                    rmtp,
                                    is_absolute: flags & TIMER_ABSTIME != 0,
                                }
                            } else {
                                BlockResult::Timer { completed: true, remaining_nanos: 0, rmtp, is_absolute: flags & TIMER_ABSTIME != 0 }
                            },
                        ),
                        state: ProcessState::Runnable,
                        ..t1
                    },
                    Some(t1.state),
                    false,
                    true,
                ),
                ProcessState::Blocked(ProcessBlock::Poll { .. }) | ProcessState::Blocked(ProcessBlock::Futex { .. }) => (
                    TaskEntry { wake_result: Some(BlockResult::SignalInterrupted), state: ProcessState::Runnable, ..t1 },
                    Some(t1.state),
                    false,
                    true,
                ),
                _ => (t1, None, false, false),
            }
        };
        let st1 = ManagerState { tasks: st.tasks.insert(pid, t2), ..st };
        let st2 = if cont || woke {
            ManagerState { runnable: st1.runnable.push((pid, t2.assigned_cpu)), ..st1 }
        } else {
            st1
        };
        let st3 = match unblock {
            Some(s) => spec_untrack(st2, pid, s),
            None => st2,
        };
        if cont {
            let (st4, notice) = spec_notify_child_event(
                st3,
                running,
                t0.identity.parent,
                ChildEvent { pid, kind: ChildEventKind::Continued },
                parent_sigchld,
            );
            (st4, SignalWake { continued: Some(notice), leave_sigsuspend: leave })
        } else {
            (st3, SignalWake { continued: None, leave_sigsuspend: leave })
        }
    }
}

/// The signals queued for `pid` while it ran, oldest first.
pub open spec fn signals_for(q: Seq<(Pid, SignalInfo)>, pid: Pid) -> Seq<SignalInfo>
    decreases q.len(),
{
    if q.len() == 0 {
        Seq::empty()
    } else {
        let rest = signals_for(q.drop_last(), pid);
        if q.last().0 == pid {
            rest.push(q.last().1)
        } else {
            rest
        }
    }
}

/// The queue without the signals for `pid`.
pub open spec fn signals_without(q: Seq<(Pid, SignalInfo)>, pid: Pid) -> Seq<(Pid, SignalInfo)>
    decreases q.len(),
{
    if q.len() == 0 {
        Seq::empty()
    } else {
        let rest = signals_without(q.drop_last(), pid);
        if q.last().0 == pid {
            rest
        } else {
            rest.push(q.last())
        }
    }
}

/// Where a signal for one task went.
#[derive(Debug, Clone, Copy)]
pub enum SendResult {
    /// The manager holds the task: it was notified.
    Notified(SignalWake),
    /// The task runs on this CPU: the signal waits until it comes back, and the CPU is to
    /// reschedule.
    Queued(usize),
    /// No such task.
    Dropped,
}

/// A signal for one task: the manager's task is notified (`spec_notify_signal`); one that
/// runs gets it queued; otherwise it goes nowhere.
pub open spec fn spec_send_signal(
    st: ManagerState,
    running: Seq<RunningTask>,
    pid: Pid,
    info: SignalInfo,
    deliverable: bool,
    now_nanos: u64,
    parent_sigchld: Option<SignalAction>,
) -> (ManagerState, SendResult) {
    if st.tasks.contains_key(pid) {
        let (st1, w) = spec_notify_signal(st, running, pid, info.signal, deliverable, now_nanos, parent_sigchld);
        (st1, SendResult::Notified(w))
    } else {
        match running_of(running, pid) {
            Some(r) => (ManagerState { queued_signals: st.queued_signals.push((pid, info)), ..st }, SendResult::Queued(r.cpu)),
            None => (st, SendResult::Dropped),
        }
    }
}

/// The thread groups of process group `pgid`.
pub open spec fn process_group_targets(st: ManagerState, running: Seq<RunningTask>, pgid: Pid) -> Set<Pid> {
    Set::new(|t: Pid| firsts_of(st.thread_groups).contains(t) && spec_thread_group_process_group(st, running, t) == Some(pgid))
}

/// The thread groups a signal to all reaches: all but `init` (1) and `exclude`.
pub open spec fn all_signal_targets(st: ManagerState, exclude: Option<Pid>) -> Set<Pid> {
    Set::new(|t: Pid| firsts_of(st.thread_groups).contains(t) && t != 1 && exclude != Some(t))
}

impl ProcessManager {
    /// A signal was queued on the task `pid`; see `spec_notify_signal`. `deliverable` tells
    /// whether, with it queued, a signal of the task would now be delivered.
    pub fn notify_signal(
        &mut self,
        pid: Pid,
        signal: u8,
        deliverable: bool,
        now_nanos: u64,
        parent_sigchld: Option<SignalAction>,
        running: &Vec<RunningTask>,
        runnable: &mut Vec<(Pid, usize)>,
    ) -> (r: SignalWake)
        requires
            old(self).wf(),
        ensures
            final(self).wf(),
            final(self).next_pid() == old(self).next_pid(),
            (final(self).state(final(runnable)@), r) == spec_notify_signal(
                old(self).state(old(runnable)@),
                running@,
                pid,
                signal,
                deliverable,
                now_nanos,
                parent_sigchld,
            ),
    {
        let t0 = match self.tasks.get(&pid) {
            Some(t) => *t,
            None => return SignalWake { continued: None, leave_sigsuspend: false },
        };
        let ghost st = self.state(runnable@);
        let stopped = match t0.state {
            ProcessState::Stopped(_) => true,
            _ => false,
        };
        let cont = signal == SIGCONT && stopped;
        let t1 = if cont {
            TaskEntry { state: ProcessState::Runnable, ..t0 }
        } else {
            t0
        };
        let mut t2 = t1;
        let mut unblock: Option<ProcessState> = None;
        let mut leave = false;
        let mut woke = false;
        if deliverable {
            match t1.state {
                ProcessState::Blocked(ProcessBlock::SignalSuspend) => {
                    t2 = TaskEntry { wake_result: Some(BlockResult::SignalInterrupted), state: ProcessState::Runnable, ..t1 };
                    leave = true;
                    woke = true;
                },
                ProcessState::Blocked(ProcessBlock::Timer { target_nanos, rmtp, flags, .. }) => {
                    let is_absolute = (flags & TIMER_ABSTIME) != 0;
                    let result = if now_nanos < target_nanos {
                        BlockResult::Timer { completed: false, remaining_nanos: target_nanos - now_nanos, rmtp, is_absolute }
                    } else {
                        BlockResult::Timer { completed: true, remaining_nanos: 0, rmtp, is_absolute }
                    };
                    t2 = TaskEntry { wake_result: Some(result), state: ProcessState::Runnable, ..t1 };
                    unblock = Some(t1.state);
                    woke = true;
                },
                ProcessState::Blocked(ProcessBlock::Poll { .. }) | ProcessState::Blocked(ProcessBlock::Futex { .. }) => {
                    t2 = TaskEntry { wake_result: Some(BlockResult::SignalInterrupted), state: ProcessState::Runnable, ..t1 };
                    unblock = Some(t1.state);
                    woke = true;
                },
                _ => {},
            }
        }
        self.tasks.insert(pid, t2);
        if cont || woke {
            runnable.push((pid, t2.assigned_cpu));
        }
        let ghost st2 = self.state(runnable@);
        match unblock {
            Some(s) => {
                self.untrack_blocked_process(pid, s);
                assert(self.state(runnable@) == spec_untrack(st2, pid, s));
            },
            None => {},
        }
        if cont {
            let notice = self.notify_child_event(
                t0.identity.parent,
                ChildEvent { pid, kind: ChildEventKind::Continued },
                parent_sigchld,
                running,
                runnable,
            );
            SignalWake { continued: Some(notice), leave_sigsuspend: leave }
        } else {
            SignalWake { continued: None, leave_sigsuspend: leave }
        }
    }

    /// Takes the signals queued for `pid` while it ran, oldest first.
    pub fn drain_queued_signals(&mut self, pid: Pid) -> (r: Vec<SignalInfo>)
        requires
            old(self).wf(),
        ensures
            final(self).wf(),
            final(self).next_pid() == old(self).next_pid(),
            r@ == signals_for(old(self).state(Seq::empty()).queued_signals, pid),
            forall|q: Seq<(Pid, usize)>| #[trigger] final(self).state(q) == (ManagerState {
                queued_signals: signals_without(old(self).state(q).queued_signals, pid),
                ..old(self).state(q)
            }),
    {
        let mut taken: Vec<SignalInfo> = Vec::new();
        let mut kept: Vec<(Pid, SignalInfo)> = Vec::new();
        let mut queue: Vec<(Pid, SignalInfo)> = Vec::new();
        std::mem::swap(&mut queue, &mut self.queued_signals);
        let ghost q0 = queue@;
        let mut i: usize = 0;
        while i < queue.len()
            invariant
                i <= queue@.len(),
                queue@ == q0,
                taken@ == signals_for(q0.take(i as int), pid),
                kept@ == signals_without(q0.take(i as int), pid),
            decreases queue@.len() - i,
        {
            let e = queue[i];
            proof {
                assert(q0.take(i + 1).drop_last() =~= q0.take(i as int));
                assert(q0.take(i + 1).last() == e);
            }
            if e.0 == pid {
                taken.push(e.1);
            } else {
                kept.push(e);
            }
            i = i + 1;
        }
        assert(q0.take(q0.len() as int) =~= q0);
        self.queued_signals = kept;
        taken
    }

    /// A signal for one task; see `spec_send_signal`.
    pub fn send_signal(
        &mut self,
        pid: Pid,
        info: SignalInfo,
        deliverable: bool,
        now_nanos: u64,
        parent_sigchld: Option<SignalAction>,
        running: &Vec<RunningTask>,
        runnable: &mut Vec<(Pid, usize)>,
    ) -> (r: SendResult)
        requires
            old(self).wf(),
        ensures
            final(self).wf(),
            final(self).next_pid() == old(self).next_pid(),
            (final(self).state(final(runnable)@), r) == spec_send_signal(
                old(self).state(old(runnable)@),
                running@,
                pid,
                info,
                deliverable,
                now_nanos,
                parent_sigchld,
            ),
    {
        if self.tasks.contains_key(&pid) {
            let w = self.notify_signal(pid, info.signal, deliverable, now_nanos, parent_sigchld, running, runnable);
            return SendResult::Notified(w);
        }
        match find_running(running, pid) {
            Some(r) => {
                self.queued_signals.push((pid, info));
                SendResult::Queued(r.cpu)
            },
            None => SendResult::Dropped,
        }
    }

    /// The member of thread group `tgid` a group signal goes to; see `spec_pick_target`.
    pub fn thread_group_signal_target(&self, tgid: Pid, signal: u8, running: &Vec<RunningTask>) -> (r: Option<Pid>)
        requires
            self.wf(),
        ensures
            r == spec_pick_target(self.state(Seq::empty()), running@, tgid, signal),
    {
        self.pick_thread_group_target(tgid, signal, running)
    }

    /// The thread groups of process group `pgid`, by id.
    pub fn process_group_signal_targets(&self, pgid: Pid, running: &Vec<RunningTask>) -> (r: Vec<Pid>)
        requires
            self.wf(),
        ensures
            ascending(r@),
            r@.to_set() == process_group_targets(self.state(Seq::empty()), running@, pgid),
    {
        let ids = self.group_ids();
        let ghost st = self.state(Seq::empty());
        let mut r: Vec<Pid> = Vec::new();
        let mut i: usize = 0;
        while i < ids.len()
            invariant
                i <= ids@.len(),
                self.wf(),
                st == self.state(Seq::empty()),
                ascending(ids@),
                ids@.to_set() == firsts_of(st.thread_groups),
                ascending(r@),
                forall|k: int| 0 <= k < r@.len() ==> exists|m: int| 0 <= m < i && ids@[m] == #[trigger] r@[k],
                forall|k: int| 0 <= k < r@.len() ==> spec_thread_group_process_group(st, running@, #[trigger] r@[k]) == Some(pgid),
                forall|m: int| 0 <= m < i && spec_thread_group_process_group(st, running@, #[trigger] ids@[m]) == Some(pgid) ==> r@.contains(ids@[m]),
                r@.len() > 0 ==> exists|m: int| 0 <= m < i && ids@[m] == r@[r@.len() - 1],
            decreases ids@.len() - i,
        {
            let t = ids[i];
            if self.thread_group_process_group(t, running) == Some(pgid) {
                proof {
                    if r@.len() > 0 {
                        let m = choose|m: int| 0 <= m < i && ids@[m] == r@[r@.len() - 1];
                        assert(ids@[m] < ids@[i as int]);
                    }
                }
                let ghost r0 = r@;
                r.push(t);
                proof {
                    assert forall|k: int| 0 <= k < r@.len() implies exists|m: int| 0 <= m < i + 1 && ids@[m] == #[trigger] r@[k] by {
                        if k == r@.len() - 1 {
                            assert(ids@[i as int] == r@[k]);
                        } else {
                            let m = choose|m: int| 0 <= m < i && ids@[m] == r0[k];
                            assert(ids@[m] == r@[k]);
                        }
                    }
                    assert forall|m: int| 0 <= m < i + 1 && spec_thread_group_process_group(st, running@, #[trigger] ids@[m]) == Some(pgid) implies r@.contains(ids@[m]) by {
                        if m == i {
                            assert(r@[r@.len() - 1] == ids@[m]);
                        } else {
                            let k = choose|k: int| 0 <= k < r0.len() && r0[k] == ids@[m];
                            assert(r@[k] == ids@[m]);
                        }
                    }
                    assert(ids@[i as int] == r@[r@.len() - 1]);
                }
            }
            i = i + 1;
        }
        proof {
            assert forall|t: Pid| r@.to_set().contains(t) == process_group_targets(st, running@, pgid).contains(t) by {
                if r@.to_set().contains(t) {
                    let k = choose|k: int| 0 <= k < r@.len() && r@[k] == t;
                    let m = choose|m: int| 0 <= m < i && ids@[m] == r@[k];
                    assert(ids@.to_set().contains(ids@[m]));
                }
                if process_group_targets(st, running@, pgid).contains(t) {
                    assert(ids@.to_set().contains(t));
                    let m = choose|m: int| 0 <= m < ids@.len() && ids@[m] == t;
                    assert(r@.contains(ids@[m]));
                }
            }
            assert(r@.to_set() =~= process_group_targets(st, running@, pgid));
        }
        r
    }

    /// The thread groups a signal to all reaches, by id: all but `init` and `exclude`.
    pub fn all_thread_group_targets(&self, exclude: Option<Pid>) -> (r: Vec<Pid>)
        requires
            self.wf(),
        ensures
            ascending(r@),
            r@.to_set() == all_signal_targets(self.state(Seq::empty()), exclude),
    {
        let ids = self.group_ids();
        let ghost st = self.state(Seq::empty());
        let mut r: Vec<Pid> = Vec::new();
        let mut i: usize = 0;
        while i < ids.len()
            invariant
                i <= ids@.len(),
                st == self.state(Seq::empty()),
                ascending(ids@),
                ids@.to_set() == firsts_of(st.thread_groups),
                ascending(r@),
                forall|k: int| 0 <= k < r@.len() ==> exists|m: int| 0 <= m < i && ids@[m] == #[trigger] r@[k],
                forall|k: int| 0 <= k < r@.len() ==> #[trigger] r@[k] != 1 && exclude != Some(r@[k]),
                forall|m: int| 0 <= m < i && #[trigger] ids@[m] != 1 && exclude != Some(ids@[m]) ==> r@.contains(ids@[m]),
                r@.len() > 0 ==> exists|m: int| 0 <= m < i && ids@[m] == r@[r@.len() - 1],
            decreases ids@.len() - i,
        {
            let t = ids[i];
            if t != 1 && exclude != Some(t) {
                proof {
                    if r@.len() > 0 {
                        let m = choose|m: int| 0 <= m < i && ids@[m] == r@[r@.len() - 1];
                        assert(ids@[m] < ids@[i as int]);
                    }
                }
                let ghost r0 = r@;
                r.push(t);
                proof {
                    assert forall|k: int| 0 <= k < r@.len() implies exists|m: int| 0 <= m < i + 1 && ids@[m] == #[trigger] r@[k] by {
                        if k == r@.len() - 1 {
                            assert(ids@[i as int] == r@[k]);
                        } else {
                            let m = choose|m: int| 0 <= m < i && ids@[m] == r0[k];
                            assert(ids@[m] == r@[k]);
                        }
                    }
                    assert forall|m: int| 0 <= m < i + 1 && #[trigger] ids@[m] != 1 && exclude != Some(ids@[m]) implies r@.contains(ids@[m]) by {
                        if m == i {
                            assert(r@[r@.len() - 1] == ids@[m]);
                        } else {
                            let k = choose|k: int| 0 <= k < r0.len() && r0[k] == ids@[m];
                            assert(r@[k] == ids@[m]);
                        }
                    }
                    assert(ids@[i as int] == r@[r@.len() - 1]);
                }
            }
            i = i + 1;
        }
        proof {
            assert forall|t: Pid| r@.to_set().contains(t) == all_signal_targets(st, exclude).contains(t) by {
                if r@.to_set().contains(t) {
                    let k = choose|k: int| 0 <= k < r@.len() && r@[k] == t;
                    let m = choose|m: int| 0 <= m < i && ids@[m] == r@[k];
                    assert(ids@.to_set().contains(ids@[m]));
                }
                if all_signal_targets(st, exclude).contains(t) {
                    assert(ids@.to_set().contains(t));
                    let m = choose|m: int| 0 <= m < ids@.len() && ids@[m] == t;
                    assert(r@.contains(ids@[m]));
                }
            }
            assert(r@.to_set() =~= all_signal_targets(st, exclude));
        }
        r
    }
}


/// What a finished system call asks for: return a value, end the task or its whole thread
/// group with a status, or block.
#[derive(Debug, Clone, Copy, PartialEq, Eq)]
pub enum SyscallDisposition {
    Return(Result<u64, crate::errno::SysErr>),
    Exit(i32),
    ExitGroup(i32),
    Block(ProcessBlock),
}

/// What finishing a system call leaves to the task's holder: whether to switch to the
/// image a successful `execve` prepared, the value for the task's return register, and
/// the status of a task that exited and is to be reaped.
#[derive(Debug, Clone, Copy, PartialEq, Eq)]
pub struct SyscallFinish {
    pub commit_exec: bool,
    pub return_value: Option<u64>,
    pub exited: Option<i32>,
}

/// The return register for a result: the value, or the negated error number.
pub open spec fn return_register(value: Result<u64, crate::errno::SysErr>) -> u64 {
    match value {
        Ok(v) => v,
        Err(e) => (-e.spec_code()) as u64,
    }
}

/// A task's system call finishes with `disposition`. A return (for a task still running)
/// makes it runnable, switching image when an `execve` prepared one (`pending_exec`) and
/// setting the return register otherwise; an exit or a group exit (which first starts the
/// group's exit) ends it. Anything but a futex block drops its armed futex wait; a block
/// goes through `spec_block`. The task then comes back to the manager (`spec_requeue`).
pub open spec fn spec_finish_syscall(
    st: ManagerState,
    t: TaskEntry,
    disposition: SyscallDisposition,
    pending_exec: bool,
    file_ready: Option<BlockResult>,
) -> (ManagerState, SyscallFinish) {
    let pid = t.identity.pid;
    let disarmed = ManagerState { armed: st.armed.remove(pid), ..st };
    let (st1, t1, commit, ret) = match disposition {
        SyscallDisposition::Return(value) => if t.state == ProcessState::Running {
            (
                disarmed,
                TaskEntry { wake_result: None, state: ProcessState::Runnable, ..t },
                pending_exec,
                if pending_exec {
                    None
                } else {
                    Some(return_register(value))
                },
            )
        } else {
            (disarmed, t, false, None)
        },
        SyscallDisposition::Exit(status) => (disarmed, TaskEntry { state: ProcessState::Exited(status), ..t }, false, None),
        SyscallDisposition::ExitGroup(status) => (
            spec_begin_group_exit(disarmed, t.identity.thread_group, pid, status),
            TaskEntry { state: ProcessState::Exited(status), ..t },
            false,
            None,
        ),
        SyscallDisposition::Block(block) => {
            let base = if block is Futex {
                st
            } else {
                disarmed
            };
            let (s2, t2) = spec_block(base, pid, t, block);
            (s2, t2, false, None)
        },
    };
    let (st2, exited) = spec_requeue(st1, t1, file_ready);
    (st2, SyscallFinish { commit_exec: commit, return_value: ret, exited })
}

/// A fault raised signal `signal` in task `t`, whose action for it is `action` and whose
/// blocked mask is in its record: with handlers supported, a handler set and the signal
/// not blocked, the task is made runnable to take it (`true`: the caller queues the
/// signal); otherwise the task ends with status 128 + `signal`, a thread starting its
/// group's exit first.
pub open spec fn spec_fault_signal(
    st: ManagerState,
    t: TaskEntry,
    signal: u8,
    action: Option<SignalAction>,
    handlers_supported: bool,
) -> (ManagerState, TaskEntry, bool) {
    let status = 128 + signal;
    match action {
        None => (st, TaskEntry { state: ProcessState::Exited(status as i32), ..t }, false),
        Some(a) => {
            let has_handler = a.handler != crate::signal::abi::SIG_DFL && a.handler != SIG_IGN;
            if handlers_supported && has_handler && t.blocked_signals & crate::signal::abi::spec_sigbit(signal) == 0 {
                (st, TaskEntry { state: ProcessState::Runnable, ..t }, true)
            } else {
                let st1 = if t.identity.thread_group != t.identity.pid {
                    spec_begin_group_exit(st, t.identity.thread_group, t.identity.pid, status as i32)
                } else {
                    st
                };
                (st1, TaskEntry { state: ProcessState::Exited(status as i32), ..t }, false)
            }
        },
    }
}

impl ProcessManager {
    /// A fault raised `signal` in the running task `task`; see `spec_fault_signal`.
    pub fn queue_synchronous_fault_signal(
        &mut self,
        task: &mut TaskEntry,
        signal: u8,
        action: Option<SignalAction>,
        handlers_supported: bool,
        runnable: &mut Vec<(Pid, usize)>,
    ) -> (r: bool)
        requires
            old(self).wf(),
        ensures
            final(self).wf(),
            final(self).next_pid() == old(self).next_pid(),
            ({
                let (st, t, queued) = spec_fault_signal(old(self).state(old(runnable)@), *old(task), signal, action, handlers_supported);
                &&& final(self).state(final(runnable)@) == st
                &&& *final(task) == t
                &&& r == queued
            }),
    {
        let status: i32 = 128 + signal as i32;
        let a = match action {
            Some(a) => a,
            None => {
                task.state = ProcessState::Exited(status);
                return false;
            },
        };
        let has_handler = a.handler != crate::signal::abi::SIG_DFL && a.handler != SIG_IGN;
        if handlers_supported && has_handler && (task.blocked_signals & crate::signal::abi::sigbit(signal)) == 0 {
            task.state = ProcessState::Runnable;
            true
        } else {
            if task.identity.thread_group != task.identity.pid {
                self.begin_thread_group_exit(task.identity.thread_group, task.identity.pid, status, runnable);
            }
            task.state = ProcessState::Exited(status);
            false
        }
    }

    /// A task's system call finished; see `spec_finish_syscall`. `pending_exec` tells
    /// whether an `execve` prepared a new image, `file_ready` what a poll of the files the
    /// task would wait on found.
    pub fn finish_syscall_dispatch(
        &mut self,
        task: TaskEntry,
        disposition: SyscallDisposition,
        pending_exec: bool,
        file_ready: Option<BlockResult>,
        runnable: &mut Vec<(Pid, usize)>,
    ) -> (r: SyscallFinish)
        requires
            old(self).wf(),
        ensures
            final(self).wf(),
            final(self).next_pid() == old(self).next_pid(),
            (final(self).state(final(runnable)@), r) == spec_finish_syscall(
                old(self).state(old(runnable)@),
                task,
                disposition,
                pending_exec,
                file_ready,
            ),
    {
        let pid = task.identity.pid;
        let mut t = task;
        let mut commit = false;
        let mut ret: Option<u64> = None;
        match disposition {
            SyscallDisposition::Return(value) => {
                self.disarm_futex_wait(pid);
                if t.state == ProcessState::Running {
                    commit = pending_exec;
                    t.wake_result = None;
                    if !pending_exec {
                        ret = Some(
                            match value {
                                Ok(v) => v,
                                Err(e) => e.errno() as u64,
                            },
                        );
                    }
                    t.state = ProcessState::Runnable;
                }
            },
            SyscallDisposition::Exit(status) => {
                self.disarm_futex_wait(pid);
                t.state = ProcessState::Exited(status);
            },
            SyscallDisposition::ExitGroup(status) => {
                self.disarm_futex_wait(pid);
                self.begin_thread_group_exit(t.identity.thread_group, pid, status, runnable);
                t.state = ProcessState::Exited(status);
            },
            SyscallDisposition::Block(block) => {
                let is_futex = match block {
                    ProcessBlock::Futex { .. } => true,
                    _ => false,
                };
                if !is_futex {
                    self.disarm_futex_wait(pid);
                }
                self.block_from_disposition(pid, &mut t, block);
            },
        }
        let exited = self.requeue_process(t, file_ready, runnable);
        SyscallFinish { commit_exec: commit, return_value: ret, exited }
    }
}


/// What a clone is to make of the parent: the child's record (its pid, thread group,
/// parent, process group, session, CPU and blocked signals), its `prctl` state, exit
/// signal, the parent waiting for it in `vfork`, the address its exit clears, and the
/// stack, TLS and tid writes its holder carries out.
#[derive(Debug, Clone, Copy, PartialEq, Eq)]
pub struct ClonePlan {
    pub child: TaskEntry,
    pub prctl: PrctlState,
    pub exit_signal: u8,
    pub vfork_parent: Option<Pid>,
    pub clear_child_tid: Option<u64>,
    pub child_stack_pointer: Option<u64>,
    pub tls: Option<u64>,
    pub child_tid_write: Option<u64>,
    pub parent_tid_write: Option<u64>,
}

/// The plan of a clone of `parent` as child `pid` on CPU `cpu`: a thread joins the
/// parent's thread group; a thread or `CLONE_PARENT` child gets the parent's parent, any
/// other the parent's thread group; process group, session and blocked signals are the
/// parent's; the `prctl` state too, without the parent-death signal and subreaper flag;
/// a thread has no exit signal.
pub open spec fn spec_clone_plan(parent: TaskEntry, prctl: PrctlState, p: CloneParams, pid: Pid, cpu: usize) -> ClonePlan {
    let thread = p.flags & CLONE_THREAD != 0;
    let inherit = p.flags & CLONE_PARENT != 0;
    ClonePlan {
        child: TaskEntry {
            identity: ProcessIdentity {
                pid,
                thread_group: if thread {
                    parent.identity.thread_group
                } else {
                    pid
                },
                parent: if thread || inherit {
                    parent.identity.parent
                } else {
                    Some(parent.identity.thread_group)
                },
                process_group: parent.identity.process_group,
                session: parent.identity.session,
            },
            state: ProcessState::Runnable,
            wake_result: None,
            assigned_cpu: cpu,
            blocked_signals: parent.blocked_signals,
        },
        prctl: PrctlState { parent_death_signal: 0, child_subreaper: false, ..prctl },
        exit_signal: if thread {
            0
        } else {
            p.exit_signal as u8
        },
        vfork_parent: if p.flags & CLONE_VFORK != 0 {
            Some(parent.identity.pid)
        } else {
            None
        },
        clear_child_tid: if p.flags & CLONE_CHILD_CLEARTID != 0 {
            p.child_tid
        } else {
            None
        },
        child_stack_pointer: p.child_stack_pointer,
        tls: if p.flags & CLONE_SETTLS != 0 {
            p.tls
        } else {
            None
        },
        child_tid_write: if p.flags & CLONE_CHILD_SETTID != 0 {
            p.child_tid
        } else {
            None
        },
        parent_tid_write: if p.flags & CLONE_PARENT_SETTID != 0 {
            p.parent_tid
        } else {
            None
        },
    }
}

impl ProcessManager {
    /// The decisions of a `clone` by the running task `parent`: the parameters are checked
    /// (`clone_verdict`), a pid is taken (`spec_allocate_pid`), and the child's plan made
    /// (`spec_clone_plan`); a child sharing the address space stays on the parent's CPU,
    /// another goes where `select_cpu_for_child` puts it given the CPUs' `loads`. The
    /// child is taken in later, by `insert_cloned_process`, once its holder has built it.
    pub fn prepare_clone(
        &mut self,
        parent: &TaskEntry,
        prctl: PrctlState,
        params: CloneParams,
        requested_pid: Option<Pid>,
        loads: &Vec<Option<usize>>,
        current_cpu: usize,
        running: &Vec<RunningTask>,
    ) -> (r: Result<ClonePlan, crate::errno::SysErr>)
        requires
            old(self).wf(),
            loads@.len() >= 1,
            parent.assigned_cpu < usize::MAX,
        ensures
            final(self).wf(),
            forall|q: Seq<(Pid, usize)>| #[trigger] final(self).state(q) == old(self).state(q),
            match clone_verdict(params) {
                Err(e) => r == Err::<ClonePlan, crate::errno::SysErr>(e) && final(self).next_pid() == old(self).next_pid(),
                Ok(_) => {
                    let (res, next) = spec_allocate_pid(old(self).state(Seq::empty()), old(self).next_pid(), requested_pid, running@);
                    &&& final(self).next_pid() == next
                    &&& match res {
                        Err(e) => r == Err::<ClonePlan, crate::errno::SysErr>(e),
                        Ok(pid) => r matches Ok(plan) && plan == spec_clone_plan(*parent, prctl, params, pid, plan.child.assigned_cpu)
                            && (params.flags & CLONE_VM != 0 ==> plan.child.assigned_cpu == parent.assigned_cpu)
                            && (params.flags & CLONE_VM == 0 && loads@.len() == 1 ==> plan.child.assigned_cpu == 0)
                            && (params.flags & CLONE_VM == 0 && loads@.len() > 1 && any_online(loads@) ==> is_chosen_cpu(
                                loads@,
                                ((parent.assigned_cpu + 1) % (loads@.len() as int)) as int,
                                plan.child.assigned_cpu as int,
                            ))
                            && (params.flags & CLONE_VM == 0 && loads@.len() > 1 && !any_online(loads@) ==> plan.child.assigned_cpu == current_cpu),
                    }
                },
            },
    {
        match params.validate() {
            Ok(()) => {},
            Err(e) => return Err(e),
        }
        let pid = match self.allocate_pid(requested_pid, running) {
            Ok(pid) => pid,
            Err(e) => return Err(e),
        };
        let thread = params.thread();
        let cpu = if params.shares_vm() {
            parent.assigned_cpu
        } else {
            select_cpu_for_child(parent.assigned_cpu, loads, current_cpu)
        };
        let child = TaskEntry {
            identity: ProcessIdentity {
                pid,
                thread_group: if thread {
                    parent.identity.thread_group
                } else {
                    pid
                },
                parent: if thread || params.inherit_parent() {
                    parent.identity.parent
                } else {
                    Some(parent.identity.thread_group)
                },
                process_group: parent.identity.process_group,
                session: parent.identity.session,
            },
            state: ProcessState::Runnable,
            wake_result: None,
            assigned_cpu: cpu,
            blocked_signals: parent.blocked_signals,
        };
        Ok(ClonePlan {
            child,
            prctl: PrctlState { parent_death_signal: 0, child_subreaper: false, ..prctl },
            exit_signal: if thread {
                0
            } else {
                params.exit_signal as u8
            },
            vfork_parent: if params.is_vfork() {
                Some(parent.identity.pid)
            } else {
                None
            },
            clear_child_tid: if params.clear_child_tid() {
                params.child_tid
            } else {
                None
            },
            child_stack_pointer: params.child_stack_pointer,
            tls: if params.set_tls() {
                params.tls
            } else {
                None
            },
            child_tid_write: if params.set_child_tid() {
                params.child_tid
            } else {
                None
            },
            parent_tid_write: if params.set_parent_tid() {
                params.parent_tid
            } else {
                None
            },
        })
    }
}

/// What taking a task off a CPU's run queue found.
pub enum DispatchTake {
    /// The manager holds no task with that pid.
    Missing,
    /// The task is assigned to another CPU: it went back to that CPU's queue. The signals
    /// queued for it while it ran are handed over.
    OtherCpu(Vec<SignalInfo>),
    /// The task leaves the manager to run here, with the signals queued for it, and whether
    /// its thread group has begun to exit (then no signal is to be taken for it).
    Taken(TaskEntry, Vec<SignalInfo>, bool),
}

/// Taking `pid` off the run queue of CPU `cpu`: the signals queued for it are taken; a task
/// assigned to another CPU goes back to that CPU's queue, any other leaves the manager.
pub open spec fn spec_take_for_dispatch(st: ManagerState, pid: Pid, cpu: usize) -> ManagerState {
    if !st.tasks.contains_key(pid) {
        st
    } else {
        let t = st.tasks[pid];
        let st1 = ManagerState { queued_signals: signals_without(st.queued_signals, pid), ..st };
        if t.assigned_cpu != cpu {
            ManagerState { runnable: st1.runnable.push((pid, t.assigned_cpu)), ..st1 }
        } else {
            ManagerState { tasks: st1.tasks.remove(pid), ..st1 }
        }
    }
}

/// What became of a task taken to run.
#[derive(Debug, Clone, Copy)]
pub enum DispatchOutcome {
    /// It exited with this status and was reaped.
    Exited(i32, ReapNotice),
    /// A stop signal stopped it and the stop reached its parent; the manager does not hold
    /// it.
    Stopped(TaskEntry, ChildNotice),
    /// `SIGCONT` continued it: it went back to the run queue, and the continue reached its
    /// parent.
    Continued(ChildNotice),
    /// It goes back into the system call it was in.
    ResumeSyscall(TaskEntry),
    /// It runs.
    Run(TaskEntry),
}

/// The exit status of a task ended by `signal`.
pub open spec fn signal_exit_status(signal: u8) -> i32 {
    (128 + signal) as i32
}

/// Task `t` ends with `status`; a thread takes its whole thread group with it
/// (`spec_begin_group_exit`).
pub open spec fn spec_end_task(st: ManagerState, t: TaskEntry, status: i32) -> (ManagerState, TaskEntry) {
    let st1 = if t.identity.thread_group != t.identity.pid {
        spec_begin_group_exit(st, t.identity.thread_group, t.identity.pid, status)
    } else {
        st
    };
    (st1, TaskEntry { state: ProcessState::Exited(status), ..t })
}

/// What the signal taken for task `t` does before it runs: a handler whose frame could
/// not be set up (but for `SIGCHLD`) and a fatal signal end it; a stop signal stops it and
/// tells its parent; `SIGCONT` continues a stopped task, tells its parent and queues it on
/// `cpu`. The third value is the outcome when the task does not go on.
pub open spec fn spec_dispatch_signal(
    st: ManagerState,
    running: Seq<RunningTask>,
    t: TaskEntry,
    delivery: SignalDelivery,
    frame_installed: bool,
    parent_sigchld: Option<SignalAction>,
    cpu: usize,
) -> (ManagerState, TaskEntry, Option<DispatchOutcome>) {
    let pid = t.identity.pid;
    match delivery {
        SignalDelivery::Deliver(info, _) => if frame_installed || info.signal == SIGCHLD {
            (st, t, None)
        } else {
            let (st1, t1) = spec_end_task(st, t, signal_exit_status(info.signal));
            (st1, t1, None)
        },
        SignalDelivery::Exit(info) => {
            let (st1, t1) = spec_end_task(st, t, signal_exit_status(info.signal));
            (st1, t1, None)
        },
        SignalDelivery::Stop(info) => {
            let t1 = TaskEntry { state: ProcessState::Stopped(info.signal), ..t };
            let (st1, n) = spec_notify_child_event(
                st,
                running,
                t.identity.parent,
                ChildEvent { pid, kind: ChildEventKind::Stopped(info.signal) },
                parent_sigchld,
            );
            (st1, t1, Some(DispatchOutcome::Stopped(t1, n)))
        },
        SignalDelivery::Continue(_) => if t.state is Stopped {
            let t1 = TaskEntry { state: ProcessState::Runnable, ..t };
            let (st1, n) = spec_notify_child_event(
                st,
                running,
                t.identity.parent,
                ChildEvent { pid, kind: ChildEventKind::Continued },
                parent_sigchld,
            );
            (
                ManagerState { tasks: st1.tasks.insert(pid, t1), runnable: st1.runnable.push((pid, cpu)), ..st1 },
                t1,
                Some(DispatchOutcome::Continued(n)),
            )
        } else {
            (st, t, None)
        },
        _ => (st, t, None),
    }
}

/// Settling task `t`, taken to run on `cpu`: if its thread group is exiting it exits with
/// the group's status; otherwise, with no system call pending, the signal taken for it acts
/// (`spec_dispatch_signal`). An exited task is then reaped (`spec_reap`); one with a pending
/// system call goes back into it, any other runs.
pub open spec fn spec_settle_dispatch(
    st: ManagerState,
    running: Seq<RunningTask>,
    t: TaskEntry,
    pending_syscall: bool,
    delivery: SignalDelivery,
    frame_installed: bool,
    vfork_parent: Option<Pid>,
    parent_sigchld: Option<SignalAction>,
    cpu: usize,
) -> (ManagerState, DispatchOutcome) {
    let tgid = t.identity.thread_group;
    if st.group_exit_status.contains_key(tgid) {
        let status = st.group_exit_status[tgid];
        let (st1, n) = spec_reap(
            st,
            running,
            TaskEntry { state: ProcessState::Exited(status), ..t },
            status,
            vfork_parent,
            parent_sigchld,
        );
        (st1, DispatchOutcome::Exited(status, n))
    } else {
        let (st1, t1, early) = if pending_syscall {
            (st, t, None)
        } else {
            spec_dispatch_signal(st, running, t, delivery, frame_installed, parent_sigchld, cpu)
        };
        match early {
            Some(o) => (st1, o),
            None => match t1.state {
                ProcessState::Exited(status) => {
                    let (st2, n) = spec_reap(st1, running, t1, status, vfork_parent, parent_sigchld);
                    (st2, DispatchOutcome::Exited(status, n))
                },
                _ => (
                    st1,
                    if pending_syscall {
                        DispatchOutcome::ResumeSyscall(TaskEntry { state: ProcessState::Running, ..t1 })
                    } else {
                        DispatchOutcome::Run(TaskEntry { state: ProcessState::Running, ..t1 })
                    },
                ),
            },
        }
    }
}

impl ProcessManager {
    /// Takes `pid` off the run queue of CPU `current_cpu`; see `spec_take_for_dispatch`.
    pub fn take_for_dispatch(&mut self, pid: Pid, current_cpu: usize, runnable: &mut Vec<(Pid, usize)>) -> (r: DispatchTake)
        requires
            old(self).wf(),
        ensures
            final(self).wf(),
            final(self).next_pid() == old(self).next_pid(),
            final(self).state(final(runnable)@) == spec_take_for_dispatch(old(self).state(old(runnable)@), pid, current_cpu),
            ({
                let st = old(self).state(old(runnable)@);
                match r {
                    DispatchTake::Missing => !st.tasks.contains_key(pid),
                    DispatchTake::OtherCpu(signals) => st.tasks.contains_key(pid) && st.tasks[pid].assigned_cpu
                        != current_cpu && signals@ == signals_for(st.queued_signals, pid),
                    DispatchTake::Taken(t, signals, exiting) => st.tasks.contains_key(pid) && t == st.tasks[pid]
                        && t.assigned_cpu == current_cpu && signals@ == signals_for(st.queued_signals, pid)
                        && exiting == st.group_exit_status.contains_key(t.identity.thread_group),
                }
            }),
    {
        let t = match self.tasks.get(&pid) {
            Some(t) => *t,
            None => return DispatchTake::Missing,
        };
        let ghost st0 = self.state(runnable@);
        let signals = self.drain_queued_signals(pid);
        let ghost st1 = self.state(runnable@);
        assert(st1 == (ManagerState { queued_signals: signals_without(st0.queued_signals, pid), ..st0 }));
        if t.assigned_cpu != current_cpu {
            runnable.push((pid, t.assigned_cpu));
            assert(self.state(runnable@) == (ManagerState { runnable: st1.runnable.push((pid, t.assigned_cpu)), ..st1 }));
            return DispatchTake::OtherCpu(signals);
        }
        self.tasks.remove(&pid);
        assert(self.state(runnable@) == (ManagerState { tasks: st1.tasks.remove(pid), ..st1 }));
        let exiting = self.group_exit_status.contains_key(&t.identity.thread_group);
        DispatchTake::Taken(t, signals, exiting)
    }
}

impl ProcessManager {
    /// Task `task` ends with `status`; see `spec_end_task`.
    fn end_task(&mut self, task: TaskEntry, status: i32, runnable: &mut Vec<(Pid, usize)>) -> (r: TaskEntry)
        requires
            old(self).wf(),
        ensures
            final(self).wf(),
            final(self).next_pid() == old(self).next_pid(),
            (final(self).state(final(runnable)@), r) == spec_end_task(old(self).state(old(runnable)@), task, status),
    {
        if task.identity.thread_group != task.identity.pid {
            self.begin_thread_group_exit(task.identity.thread_group, task.identity.pid, status, runnable);
        }
        TaskEntry { state: ProcessState::Exited(status), ..task }
    }

    /// Settles `task`, taken to run on `current_cpu`; see `spec_settle_dispatch`.
    /// `pending_syscall` says whether it is in a system call that is to be resumed;
    /// `delivery` is what its signal state handed out for it (`SignalDelivery::Nothing` when
    /// no signal was taken), and `frame_installed` whether the handler frame of a delivered
    /// signal went onto its user stack. `vfork_parent` and `parent_sigchld` are as for
    /// `reap_exited_process`.
    pub fn settle_dispatch(
        &mut self,
        task: TaskEntry,
        pending_syscall: bool,
        delivery: SignalDelivery,
        frame_installed: bool,
        vfork_parent: Option<Pid>,
        parent_sigchld: Option<SignalAction>,
        current_cpu: usize,
        running: &Vec<RunningTask>,
        runnable: &mut Vec<(Pid, usize)>,
    ) -> (r: DispatchOutcome)
        requires
            old(self).wf(),
        ensures
            final(self).wf(),
            final(self).next_pid() == old(self).next_pid(),
            (final(self).state(final(runnable)@), r) == spec_settle_dispatch(
                old(self).state(old(runnable)@),
                running@,
                task,
                pending_syscall,
                delivery,
                frame_installed,
                vfork_parent,
                parent_sigchld,
                current_cpu,
            ),
    {
        let pid = task.identity.pid;
        let tgid = task.identity.thread_group;
        match self.group_exit_status.get(&tgid) {
            Some(status) => {
                let status = *status;
                let n = self.reap_exited_process(
                    TaskEntry { state: ProcessState::Exited(status), ..task },
                    status,
                    vfork_parent,
                    parent_sigchld,
                    running,
                    runnable,
                );
                return DispatchOutcome::Exited(status, n);
            },
            None => {},
        }
        let mut t = task;
        if !pending_syscall {
            match delivery {
                SignalDelivery::Deliver(info, _) => {
                    if !frame_installed && info.signal != SIGCHLD {
                        t = self.end_task(t, 128 + info.signal as i32, runnable);
                    }
                },
                SignalDelivery::Exit(info) => {
                    t = self.end_task(t, 128 + info.signal as i32, runnable);
                },
                SignalDelivery::Stop(info) => {
                    let stopped = TaskEntry { state: ProcessState::Stopped(info.signal), ..t };
                    let n = self.notify_child_event(
                        t.identity.parent,
                        ChildEvent { pid, kind: ChildEventKind::Stopped(info.signal) },
                        parent_sigchld,
                        running,
                        runnable,
                    );
                    return DispatchOutcome::Stopped(stopped, n);
                },
                SignalDelivery::Continue(_) => {
                    let is_stopped = match t.state {
                        ProcessState::Stopped(_) => true,
                        _ => false,
                    };
                    if is_stopped {
                        let resumed = TaskEntry { state: ProcessState::Runnable, ..t };
                        let n = self.notify_child_event(
                            t.identity.parent,
                            ChildEvent { pid, kind: ChildEventKind::Continued },
                            parent_sigchld,
                            running,
                            runnable,
                        );
                        let ghost st1 = self.state(runnable@);
                        self.tasks.insert(pid, resumed);
                        runnable.push((pid, current_cpu));
                        assert(self.state(runnable@) == (ManagerState {
                            tasks: st1.tasks.insert(pid, resumed),
                            runnable: st1.runnable.push((pid, current_cpu)),
                            ..st1
                        }));
                        return DispatchOutcome::Continued(n);
                    }
                },
                _ => {},
            }
        }
        match t.state {
            ProcessState::Exited(status) => {
                let n = self.reap_exited_process(t, status, vfork_parent, parent_sigchld, running, runnable);
                DispatchOutcome::Exited(status, n)
            },
            _ => {
                let t2 = TaskEntry { state: ProcessState::Running, ..t };
                if pending_syscall {
                    DispatchOutcome::ResumeSyscall(t2)
                } else {
                    DispatchOutcome::Run(t2)
                }
            },
        }
    }
}

impl ProcessManager {
    /// A task about to run for the first time could not have its pid written to the
    /// `set_child_tid` word it was cloned with: it exits with the status of `SIGSEGV` and is
    /// reaped (`spec_reap`). Returns the status and the reaping's notice.
    pub fn fail_child_return(
        &mut self,
        task: TaskEntry,
        vfork_parent: Option<Pid>,
        parent_sigchld: Option<SignalAction>,
        running: &Vec<RunningTask>,
        runnable: &mut Vec<(Pid, usize)>,
    ) -> (r: (i32, ReapNotice))
        requires
            old(self).wf(),
        ensures
            final(self).wf(),
            final(self).next_pid() == old(self).next_pid(),
            r.0 == signal_exit_status(SIGSEGV),
            (final(self).state(final(runnable)@), r.1) == spec_reap(
                old(self).state(old(runnable)@),
                running@,
                TaskEntry { state: ProcessState::Exited(r.0), ..task },
                r.0,
                vfork_parent,
                parent_sigchld,
            ),
    {
        let status = 128 + SIGSEGV as i32;
        let n = self.reap_exited_process(
            TaskEntry { state: ProcessState::Exited(status), ..task },
            status,
            vfork_parent,
            parent_sigchld,
            running,
            runnable,
        );
        (status, n)
    }
}

/// Why a running task came back, other than for a system call.
#[derive(Debug, Clone, Copy, PartialEq, Eq, Structural)]
pub enum RunExit {
    /// An interrupt with this vector.
    Interrupt(u8),
    /// An exception; `resolved` says whether the task's address space resolved it, which
    /// only a page fault can be.
    Exception { details: UserExceptionDetails, resolved: bool },
}

/// What the scheduler reports of a task's return from running.
#[derive(Debug, Clone, Copy, PartialEq, Eq, Structural)]
pub enum RunEvent {
    /// It was interrupted, by an interrupt or an exception with this vector.
    Interrupted(u8),
    /// It faulted for good, with this vector and error code.
    Faulted(u8, u64),
}

/// What settling a task's return from running leaves to its holder.
pub struct RunSettle {
    pub event: RunEvent,
    /// The signals queued for the task while it ran, oldest first, to be queued in its
    /// signal state.
    pub signals: Vec<SignalInfo>,
    /// The fault signal to queue after them, for a handler to take.
    pub fault_signal: Option<SignalInfo>,
    /// The status of a task that exited and is to be reaped.
    pub exited: Option<i32>,
}

/// The action of `signal` in a table of actions, if the table has a slot for it.
pub open spec fn action_in(actions: Seq<SignalAction>, signal: u8) -> Option<SignalAction> {
    if (signal as int) < crate::signal::state::SIGNAL_SLOTS {
        Some(actions[signal as int])
    } else {
        None
    }
}

/// The signal an exception raises in the task: none for a page fault the address space
/// resolved, `SIGSEGV` for any other page fault, the signal of its class, or for a fatal one
/// the signal of its vector if it has one.
pub open spec fn exception_fault_signal(details: UserExceptionDetails, resolved: bool) -> Option<u8> {
    match crate::arch::x86_64::exception::spec_classify(details) {
        UserExceptionClass::PageFault(_) => if resolved {
            None
        } else {
            Some(SIGSEGV)
        },
        UserExceptionClass::Signal { signal, .. } => Some(signal),
        UserExceptionClass::Fatal(d) => crate::arch::x86_64::exception::spec_exception_signal(d.vector),
    }
}

/// A task comes back from running on CPU state `exit`, with the signal actions `actions` of
/// its process: the signals queued for it are handed over. An interrupt, or a page fault
/// the address space resolved, leaves it runnable; an exception that raises a signal goes
/// through `spec_fault_signal` (handlers being supported), the signal being handed back
/// with the exception's error code when the handler is to take it; any other exception
/// faults it for good. The task then comes back to the manager (`spec_requeue`).
pub open spec fn spec_settle_run(
    st: ManagerState,
    t: TaskEntry,
    exit: RunExit,
    actions: Seq<SignalAction>,
) -> (ManagerState, RunEvent, Option<SignalInfo>, Option<i32>) {
    let st0 = ManagerState { queued_signals: signals_without(st.queued_signals, t.identity.pid), ..st };
    match exit {
        RunExit::Interrupt(vector) => {
            let (st1, exited) = spec_requeue(st0, TaskEntry { state: ProcessState::Runnable, ..t }, None);
            (st1, RunEvent::Interrupted(vector), None, exited)
        },
        RunExit::Exception { details, resolved } => {
            let is_page_fault = crate::arch::x86_64::exception::spec_classify(details) is PageFault;
            match exception_fault_signal(details, resolved) {
                None => if is_page_fault {
                    let (st1, exited) = spec_requeue(st0, TaskEntry { state: ProcessState::Runnable, ..t }, None);
                    (st1, RunEvent::Interrupted(details.vector), None, exited)
                } else {
                    let (st1, exited) = spec_requeue(
                        st0,
                        TaskEntry { state: ProcessState::Faulted { vector: details.vector, error_code: details.error_code }, ..t },
                        None,
                    );
                    (st1, RunEvent::Faulted(details.vector, details.error_code), None, exited)
                },
                Some(signal) => {
                    let (st1, t1, queued) = spec_fault_signal(st0, t, signal, action_in(actions, signal), true);
                    let (st2, exited) = spec_requeue(st1, t1, None);
                    (
                        st2,
                        RunEvent::Interrupted(details.vector),
                        if queued {
                            Some(SignalInfo { signal, code: details.error_code as i32, status: 0, pid: 0, uid: 0 })
                        } else {
                            None
                        },
                        exited,
                    )
                },
            }
        },
    }
}

impl ProcessManager {
    /// Settles the return of `task` from running; see `spec_settle_run`.
    pub fn settle_run(
        &mut self,
        task: TaskEntry,
        exit: RunExit,
        actions: &SignalActions,
        runnable: &mut Vec<(Pid, usize)>,
    ) -> (r: RunSettle)
        requires
            old(self).wf(),
            actions.wf(),
        ensures
            final(self).wf(),
            final(self).next_pid() == old(self).next_pid(),
            r.signals@ == signals_for(old(self).state(old(runnable)@).queued_signals, task.identity.pid),
            (final(self).state(final(runnable)@), r.event, r.fault_signal, r.exited) == spec_settle_run(
                old(self).state(old(runnable)@),
                task,
                exit,
                actions@,
            ),
    {
        let pid = task.identity.pid;
        let signals = self.drain_queued_signals(pid);
        match exit {
            RunExit::Interrupt(vector) => {
                let exited = self.requeue_process(TaskEntry { state: ProcessState::Runnable, ..task }, None, runnable);
                RunSettle { event: RunEvent::Interrupted(vector), signals, fault_signal: None, exited }
            },
            RunExit::Exception { details, resolved } => {
                let class = classify_user_exception(details);
                let is_page_fault = match class {
                    UserExceptionClass::PageFault(_) => true,
                    _ => false,
                };
                let fault = match class {
                    UserExceptionClass::PageFault(_) => if resolved {
                        None
                    } else {
                        Some(SIGSEGV)
                    },
                    UserExceptionClass::Signal { signal, .. } => Some(signal),
                    UserExceptionClass::Fatal(d) => exception_signal(d.vector),
                };
                match fault {
                    None => if is_page_fault {
                        let exited = self.requeue_process(TaskEntry { state: ProcessState::Runnable, ..task }, None, runnable);
                        RunSettle { event: RunEvent::Interrupted(details.vector), signals, fault_signal: None, exited }
                    } else {
                        let faulted = TaskEntry {
                            state: ProcessState::Faulted { vector: details.vector, error_code: details.error_code },
                            ..task
                        };
                        let exited = self.requeue_process(faulted, None, runnable);
                        RunSettle {
                            event: RunEvent::Faulted(details.vector, details.error_code),
                            signals,
                            fault_signal: None,
                            exited,
                        }
                    },
                    Some(signal) => {
                        let mut t = task;
                        let queued = self.queue_synchronous_fault_signal(&mut t, signal, actions.action(signal), true, runnable);
                        let exited = self.requeue_process(t, None, runnable);
                        let code = details.error_code as i32;
                        RunSettle {
                            event: RunEvent::Interrupted(details.vector),
                            signals,
                            fault_signal: if queued {
                                Some(SignalInfo { signal, code, status: 0, pid: 0, uid: 0 })
                            } else {
                                None
                            },
                            exited,
                        }
                    },
                }
            },
        }
    }
}

} // verus!
