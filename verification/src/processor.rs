//! Per-CPU scheduling decisions: the run queue of a CPU, and which CPU a process goes to.
use vstd::prelude::*;

use crate::process::Pid;

verus! {

/// The processes waiting to run on one CPU, first come first served, each at most once.
pub struct LocalRunQueue {
    runnable: Vec<Pid>,
}

/// No process occurs twice.
pub open spec fn no_duplicates(s: Seq<Pid>) -> bool {
    forall|i: int, j: int| 0 <= i < j < s.len() ==> s[i] != s[j]
}

impl LocalRunQueue {
    /// The waiting processes, first to run first.
    pub closed spec fn queue(&self) -> Seq<Pid> {
        self.runnable@
    }

    /// No process waits twice.
    pub closed spec fn wf(&self) -> bool {
        no_duplicates(self.runnable@)
    }

    /// An empty queue.
    pub fn new() -> (r: Self)
        ensures
            r.wf(),
            r.queue() == Seq::<Pid>::empty(),
    {
        LocalRunQueue { runnable: Vec::new() }
    }

    /// How many processes wait.
    pub fn len(&self) -> (r: usize)
        ensures
            r == self.queue().len(),
    {
        self.runnable.len()
    }

    /// Queues `pid` at the back; `false` (and nothing changes) when it already waits.
    pub fn enqueue(&mut self, pid: Pid) -> (r: bool)
        requires
            old(self).wf(),
        ensures
            final(self).wf(),
            r == !old(self).queue().contains(pid),
            r ==> final(self).queue() == old(self).queue().push(pid),
            !r ==> final(self).queue() == old(self).queue(),
    {
        let mut i: usize = 0;
        while i < self.runnable.len()
            invariant
                i <= self.runnable@.len(),
                self.runnable@ == old(self).runnable@,
                no_duplicates(self.runnable@),
                forall|j: int| 0 <= j < i ==> self.runnable@[j] != pid,
            decreases self.runnable@.len() - i,
        {
            if self.runnable[i] == pid {
                assert(self.runnable@.contains(pid)) by {
                    assert(self.runnable@[i as int] == pid);
                }
                return false;
            }
            i = i + 1;
        }
        self.runnable.push(pid);
        true
    }

    /// Takes the process at the front.
    pub fn dequeue(&mut self) -> (r: Option<Pid>)
        requires
            old(self).wf(),
        ensures
            final(self).wf(),
            old(self).queue().len() == 0 ==> r is None && final(self).queue() == old(self).queue(),
            old(self).queue().len() > 0 ==> r == Some(old(self).queue()[0]) && final(self).queue()
                == old(self).queue().drop_first(),
    {
        if self.runnable.len() == 0 {
            return None;
        }
        let pid = self.runnable.remove(0);
        assert(self.runnable@ =~= old(self).runnable@.drop_first());
        Some(pid)
    }
}

/// The load of a CPU: its running process, if any, and those waiting.
pub fn processor_load(running: bool, waiting: usize) -> (r: usize)
    requires
        waiting < usize::MAX,
    ensures
        r == waiting + if running {
            1int
        } else {
            0int
        },
{
    (if running {
        1
    } else {
        0
    }) + waiting
}

/// The CPU at step `k` of a round from `start` over `n` CPUs.
pub open spec fn round_cpu(start: int, k: int, n: int) -> int {
    (start + k) % n
}

/// How far into the round from `start` CPU `c` comes.
pub open spec fn round_offset(start: int, c: int, n: int) -> int {
    if c >= start {
        c - start
    } else {
        c + n - start
    }
}

/// Whether CPU `c` can be chosen: it is online, with a load below `usize::MAX`.
pub open spec fn eligible(loads: Seq<Option<usize>>, c: int) -> bool {
    loads[c] is Some && loads[c]->0 < usize::MAX
}

/// Some CPU can be chosen.
pub open spec fn any_online(loads: Seq<Option<usize>>) -> bool {
    exists|c: int| 0 <= c < loads.len() && eligible(loads, c)
}

/// `r` is the online CPU of least load, the first such in the round from `start` (a load
/// of `usize::MAX` never counts).
pub open spec fn is_chosen_cpu(loads: Seq<Option<usize>>, start: int, r: int) -> bool {
    let n = loads.len() as int;
    &&& 0 <= r < n
    &&& loads[r] is Some
    &&& forall|c: int| 0 <= c < n && loads[c] is Some ==> loads[c]->0 >= loads[r]->0
    &&& forall|k: int|
        0 <= k < round_offset(start, r, n) ==> #[trigger] loads[round_cpu(start, k, n)] is None
            || loads[round_cpu(start, k, n)]->0 > loads[r]->0
}

proof fn lemma_round(start: int, k: int, n: int)
    requires
        0 <= start < n,
        0 <= k < n,
    ensures
        0 <= round_cpu(start, k, n) < n,
        round_offset(start, round_cpu(start, k, n), n) == k,
{
    if start + k < n {
        assert((start + k) % n == start + k) by (nonlinear_arith)
            requires
                0 <= start + k < n,
        ;
    } else {
        assert((start + k) % n == start + k - n) by (nonlinear_arith)
            requires
                n <= start + k < 2 * n,
        ;
    }
}

/// Picks a CPU for a process, given the load of each CPU (`None` for one that is not
/// online): the least loaded, the first such in the round from `start_cpu`; `current_cpu`
/// when none is online.
pub fn select_online_cpu(loads: &Vec<Option<usize>>, start_cpu: usize, current_cpu: usize) -> (r: usize)
    requires
        loads@.len() >= 1,
        start_cpu < loads@.len(),
    ensures
        any_online(loads@) ==> is_chosen_cpu(loads@, start_cpu as int, r as int),
        !any_online(loads@) ==> r == current_cpu,
{
    let n = loads.len();
    let mut best: Option<usize> = None;
    let mut best_load: usize = usize::MAX;
    let mut offset: usize = 0;
    let mut stop = false;
    while offset < n && !stop
        invariant
            n == loads@.len(),
            n >= 1,
            start_cpu < n,
            offset <= n,
            best matches Some(b) ==> b < n && loads@[b as int] == Some(best_load)
                && round_offset(start_cpu as int, b as int, n as int) < offset,
            best is None ==> best_load == usize::MAX,
            best is Some ==> best_load < usize::MAX,
            forall|k: int|
                0 <= k < offset ==> (#[trigger] loads@[round_cpu(start_cpu as int, k, n as int)] is None
                    || loads@[round_cpu(start_cpu as int, k, n as int)]->0 >= best_load),
            best matches Some(b) ==> forall|k: int|
                0 <= k < round_offset(start_cpu as int, b as int, n as int) ==> (
                #[trigger] loads@[round_cpu(start_cpu as int, k, n as int)] is None
                    || loads@[round_cpu(start_cpu as int, k, n as int)]->0 > best_load),
            best is None ==> forall|k: int|
                0 <= k < offset ==> !eligible(loads@, #[trigger] round_cpu(start_cpu as int, k, n as int)),
            stop ==> best_load == 0 && best is Some,
        decreases n - offset,
    {
        let cpu = if offset < n - start_cpu {
            start_cpu + offset
        } else {
            offset - (n - start_cpu)
        };
        proof {
            lemma_round(start_cpu as int, offset as int, n as int);
            if offset < n - start_cpu {
                assert((start_cpu + offset) % (n as int) == start_cpu + offset) by (nonlinear_arith)
                    requires
                        0 <= start_cpu + offset < n,
                ;
            } else {
                assert((start_cpu + offset) % (n as int) == start_cpu + offset - n) by (nonlinear_arith)
                    requires
                        n <= start_cpu + offset < 2 * n,
                ;
            }
            assert(cpu == round_cpu(start_cpu as int, offset as int, n as int));
        }
        match loads[cpu] {
            None => {},
            Some(load) => {
                if load < best_load {
                    best = Some(cpu);
                    best_load = load;
                    if load == 0 {
                        stop = true;
                    }
                }
            },
        }
        offset = offset + 1;
    }
    match best {
        None => {
            proof {
                assert forall|c: int| 0 <= c < n implies !eligible(loads@, c) by {
                    lemma_round(start_cpu as int, round_offset(start_cpu as int, c, n as int), n as int);
                    assert(round_cpu(start_cpu as int, round_offset(start_cpu as int, c, n as int), n as int)
                        == c) by (nonlinear_arith)
                        requires
                            0 <= c < n,
                            0 <= start_cpu < n,
                    ;
                }
            }
            current_cpu
        },
        Some(b) => {
            proof {
                assert(eligible(loads@, b as int));
                assert forall|c: int| 0 <= c < n && loads@[c] is Some implies loads@[c]->0
                    >= best_load by {
                    let k = round_offset(start_cpu as int, c, n as int);
                    assert(round_cpu(start_cpu as int, k, n as int) == c) by (nonlinear_arith)
                        requires
                            0 <= c < n,
                            0 <= start_cpu < n,
                            k == (if c >= start_cpu { c - start_cpu } else { c + n - start_cpu }),
                    ;
                    if k >= offset {
                        assert(stop);
                    }
                }
            }
            b
        },
    }
}

/// A CPU for a new process: a round starting at the next CPU in turn (`counter`, which
/// steps by one, wrapping).
pub fn select_cpu_for_new_process(counter: &mut usize, loads: &Vec<Option<usize>>, current_cpu: usize) -> (r: usize)
    requires
        loads@.len() >= 1,
    ensures
        *final(counter) == (if *old(counter) == usize::MAX {
            0
        } else {
            (*old(counter) + 1) as usize
        }),
        any_online(loads@) ==> is_chosen_cpu(
            loads@,
            (*old(counter) as int) % (loads@.len() as int),
            r as int,
        ),
        !any_online(loads@) ==> r == current_cpu,
{
    let start = *counter % loads.len();
    *counter = counter.wrapping_add(1);
    select_online_cpu(loads, start, current_cpu)
}

/// A CPU for the child of a process on `parent_cpu`: CPU 0 when there is only one, else
/// a round starting at the CPU after the parent's.
pub fn select_cpu_for_child(parent_cpu: usize, loads: &Vec<Option<usize>>, current_cpu: usize) -> (r: usize)
    requires
        loads@.len() >= 1,
        parent_cpu < usize::MAX,
    ensures
        loads@.len() == 1 ==> r == 0,
        loads@.len() > 1 && any_online(loads@) ==> is_chosen_cpu(
            loads@,
            ((parent_cpu + 1) % (loads@.len() as int)) as int,
            r as int,
        ),
        loads@.len() > 1 && !any_online(loads@) ==> r == current_cpu,
{
    if loads.len() == 1 {
        return 0;
    }
    select_online_cpu(loads, (parent_cpu + 1) % loads.len(), current_cpu)
}

/// An idle CPU spins precisely to a deadline at most this far away.
pub const PRECISE_WAIT_THRESHOLD_NS: u64 = 10_000_000;

/// The longest an idle CPU spins before it looks for work again.
pub const IDLE_POLL_INTERVAL_NS: u64 = 1_000_000;

/// The earliest of the optional deadlines an idle CPU waits for.
pub open spec fn spec_earliest(a: Option<u64>, b: Option<u64>) -> Option<u64> {
    match (a, b) {
        (Some(x), Some(y)) => Some(if x <= y { x } else { y }),
        (Some(x), None) => Some(x),
        (None, y) => y,
    }
}

/// The next deadline an idle CPU waits for: the earliest of the process timers', the timer
/// files' and the display's.
pub fn idle_deadline(process: Option<u64>, timerfd: Option<u64>, display: Option<u64>) -> (r: Option<u64>)
    ensures
        r == spec_earliest(spec_earliest(process, timerfd), display),
{
    let first = match (process, timerfd) {
        (Some(x), Some(y)) => Some(if x <= y { x } else { y }),
        (Some(x), None) => Some(x),
        (None, y) => y,
    };
    match (first, display) {
        (Some(x), Some(y)) => Some(if x <= y { x } else { y }),
        (Some(x), None) => Some(x),
        (None, y) => y,
    }
}

/// The time left to a deadline at `now`, stopping at 0.
pub open spec fn time_left(deadline: u64, now: u64) -> u64 {
    if deadline > now {
        (deadline - now) as u64
    } else {
        0
    }
}

/// How long an idle CPU spins precisely to `next` at `now`: the time left, when it is not
/// zero and within `PRECISE_WAIT_THRESHOLD_NS`; none otherwise. After such a spin the CPU
/// checks which timers came due and looks for work again.
pub fn precise_idle_wait(next: Option<u64>, now: u64) -> (r: Option<u64>)
    ensures
        r == (match next {
            Some(d) => if time_left(d, now) != 0 && time_left(d, now) <= PRECISE_WAIT_THRESHOLD_NS {
                Some(time_left(d, now))
            } else {
                None
            },
            None => None,
        }),
{
    match next {
        Some(d) => {
            let remaining = d.saturating_sub(now);
            if remaining != 0 && remaining <= PRECISE_WAIT_THRESHOLD_NS {
                Some(remaining)
            } else {
                None
            }
        },
        None => None,
    }
}

/// How long an idle CPU spins before it looks for work again, when no precise spin was
/// made: the time left to `next` at `now`, at most `IDLE_POLL_INTERVAL_NS` (that interval
/// with no deadline). A result of 0 means the CPU halts until an interrupt.
pub fn idle_poll_wait(next: Option<u64>, now: u64) -> (r: u64)
    ensures
        r == (match next {
            Some(d) => if time_left(d, now) <= IDLE_POLL_INTERVAL_NS {
                time_left(d, now)
            } else {
                IDLE_POLL_INTERVAL_NS
            },
            None => IDLE_POLL_INTERVAL_NS,
        }),
{
    match next {
        Some(d) => {
            let remaining = d.saturating_sub(now);
            if remaining <= IDLE_POLL_INTERVAL_NS {
                remaining
            } else {
                IDLE_POLL_INTERVAL_NS
            }
        },
        None => IDLE_POLL_INTERVAL_NS,
    }
}

} // verus!
