//! The real-time interval timers (`ITIMER_REAL`) of thread groups: each has an optional
//! deadline and a reload interval, and raises `SIGALRM` when it expires.
use vstd::prelude::*;
use std::collections::HashMap;

use super::Pid;
use crate::deadline::{DeadlineSet, ids_at, is_earliest};
use crate::signal::abi::{SIGALRM, SignalInfo};

verus! {

broadcast use vstd::std_specs::hash::group_hash_axioms;

/// One thread group's timer.
#[derive(Debug, Clone, Copy, PartialEq, Eq, Structural)]
pub struct RealTimerState {
    pub deadline_nanos: Option<u64>,
    pub interval_nanos: u64,
}

/// The timers of all thread groups and their deadlines.
pub struct RealTimerRegistry {
    timers: HashMap<Pid, RealTimerState>,
    deadlines: DeadlineSet,
}

/// The invariant of the registry: a timer is kept only while it has a deadline or an
/// interval, and the deadline set holds exactly the deadlines of the timers.
pub open spec fn timers_wf(timers: Map<Pid, RealTimerState>, dl: Set<(u64, u64)>) -> bool {
    &&& forall|pid: Pid|
        #[trigger] timers.contains_key(pid) ==> !(timers[pid].deadline_nanos is None
            && timers[pid].interval_nanos == 0)
    &&& forall|pid: Pid|
        #[trigger] timers.contains_key(pid) && timers[pid].deadline_nanos is Some ==> dl.contains(
            (timers[pid].deadline_nanos->0, pid as u64),
        )
    &&& forall|e: (u64, u64)|
        #[trigger] dl.contains(e) ==> e.1 <= u32::MAX && timers.contains_key(e.1 as Pid)
            && timers[e.1 as Pid].deadline_nanos == Some(e.0)
}

/// What is left of a timer's time to expiry at `now`, 0 when it is not armed.
pub open spec fn remaining(t: Option<RealTimerState>, now: u64) -> u64 {
    match t {
        Some(timer) => match timer.deadline_nanos {
            Some(d) => if d > now {
                (d - now) as u64
            } else {
                0
            },
            None => 0,
        },
        None => 0,
    }
}

/// A timer's reload interval, 0 when there is no timer.
pub open spec fn interval_of(t: Option<RealTimerState>) -> u64 {
    match t {
        Some(timer) => timer.interval_nanos,
        None => 0,
    }
}

/// The deadline after `d` of a timer with `interval`, once it is found expired at `now`:
/// the first reload point after `now`, capped at `u64::MAX`.
pub open spec fn next_reload(d: u64, interval: u64, now: u64) -> u64 {
    let next = d + ((now - d) / (interval as int) + 1) * interval;
    if next > u64::MAX {
        u64::MAX
    } else {
        next as u64
    }
}

/// The earliest deadline that reads as a deadline: `u64::MAX` stands for none.
pub open spec fn published_deadline(dl: Set<(u64, u64)>) -> Option<u64> {
    if exists|d: u64| is_earliest(dl, d) && d != u64::MAX {
        Some(choose|d: u64| is_earliest(dl, d) && d != u64::MAX)
    } else {
        None
    }
}

impl RealTimerRegistry {
    /// The timers.
    pub closed spec fn timers(&self) -> Map<Pid, RealTimerState> {
        self.timers@
    }

    /// The pending deadlines, each with its thread group.
    pub closed spec fn deadlines(&self) -> Set<(u64, u64)> {
        self.deadlines@
    }

    /// The invariant of the registry.
    pub closed spec fn wf(&self) -> bool {
        self.deadlines.wf() && timers_wf(self.timers@, self.deadlines@)
    }

    /// No timers.
    pub fn new() -> (r: Self)
        ensures
            r.wf(),
            r.timers() == Map::<Pid, RealTimerState>::empty(),
            r.deadlines() == Set::<(u64, u64)>::empty(),
    {
        RealTimerRegistry { timers: HashMap::new(), deadlines: DeadlineSet::new() }
    }

    /// The earliest pending deadline; a deadline of `u64::MAX` reads as none.
    pub fn next_deadline(&self) -> (r: Option<u64>)
        requires
            self.wf(),
        ensures
            r == published_deadline(self.deadlines()),
    {
        match self.deadlines.earliest() {
            None => {
                assert(!exists|d: u64| is_earliest(self.deadlines@, d) && d != u64::MAX);
                None
            },
            Some(d) => {
                proof {
                    assert forall|d2: u64| is_earliest(self.deadlines@, d2) implies d2 == d by {
                        let id = choose|id: u64| self.deadlines@.contains((d2, id));
                        let id1 = choose|id: u64| self.deadlines@.contains((d, id));
                        assert(d <= d2);
                        assert(d2 <= d);
                    }
                }
                if d == u64::MAX {
                    None
                } else {
                    Some(d)
                }
            },
        }
    }

    /// Whether the earliest deadline has passed at `current_nanos`.
    pub fn deadline_due(&self, current_nanos: u64) -> (r: bool)
        requires
            self.wf(),
        ensures
            r == (published_deadline(self.deadlines()) matches Some(d) && d <= current_nanos),
    {
        match self.next_deadline() {
            Some(deadline) => deadline <= current_nanos,
            None => false,
        }
    }

    /// `getitimer`: the time left until the group's timer expires, and its interval.
    pub fn read_real_timer(&self, tgid: Pid, now_nanos: u64) -> (r: (u64, u64))
        requires
            self.wf(),
        ensures
            r == (remaining(self.timers().get(tgid), now_nanos), interval_of(
                self.timers().get(tgid),
            )),
    {
        match self.timers.get(&tgid) {
            None => (0, 0),
            Some(timer) => (
                match timer.deadline_nanos {
                    Some(deadline) => deadline.saturating_sub(now_nanos),
                    None => 0,
                },
                timer.interval_nanos,
            ),
        }
    }

    /// `setitimer`: arms the group's timer `value_nanos` from now (disarms it for 0) with
    /// reload `interval_nanos`; a timer with neither is dropped. Returns what `getitimer`
    /// reported before.
    pub fn set_real_timer(
        &mut self,
        tgid: Pid,
        now_nanos: u64,
        value_nanos: u64,
        interval_nanos: u64,
    ) -> (r: (u64, u64))
        requires
            old(self).wf(),
        ensures
            final(self).wf(),
            r == (remaining(old(self).timers().get(tgid), now_nanos), interval_of(
                old(self).timers().get(tgid),
            )),
            ({
                let deadline = if value_nanos == 0 {
                    None
                } else if now_nanos + value_nanos > u64::MAX {
                    Some(u64::MAX)
                } else {
                    Some((now_nanos + value_nanos) as u64)
                };
                if deadline is None && interval_nanos == 0 {
                    final(self).timers() == old(self).timers().remove(tgid)
                } else {
                    final(self).timers() == old(self).timers().insert(
                        tgid,
                        RealTimerState { deadline_nanos: deadline, interval_nanos },
                    )
                }
            }),
    {
        let previous = match self.timers.get(&tgid) {
            Some(t) => Some(*t),
            None => None,
        };
        match previous {
            Some(old_timer) => match old_timer.deadline_nanos {
                Some(deadline_nanos) => {
                    self.deadlines.remove(deadline_nanos, tgid as u64);
                },
                None => {},
            },
            None => {},
        }
        let new_timer = RealTimerState {
            deadline_nanos: if value_nanos != 0 {
                Some(now_nanos.saturating_add(value_nanos))
            } else {
                None
            },
            interval_nanos,
        };
        if new_timer.deadline_nanos.is_none() && new_timer.interval_nanos == 0 {
            self.timers.remove(&tgid);
        } else {
            match new_timer.deadline_nanos {
                Some(deadline_nanos) => {
                    self.deadlines.insert(deadline_nanos, tgid as u64);
                },
                None => {},
            }
            self.timers.insert(tgid, new_timer);
        }
        proof {
            assert forall|e: (u64, u64)| #[trigger] self.deadlines@.contains(e) implies e.1
                <= u32::MAX && self.timers@.contains_key(e.1 as Pid)
                && self.timers@[e.1 as Pid].deadline_nanos == Some(e.0) by {
                if e.1 != tgid as u64 {
                    assert(old(self).deadlines@.contains(e));
                    assert((e.1 as Pid) != tgid);
                } else {
                    assert(e.1 as Pid == tgid);
                }
            }
        }
        (
            match previous {
                Some(t) => match t.deadline_nanos {
                    Some(deadline) => deadline.saturating_sub(now_nanos),
                    None => 0,
                },
                None => 0,
            },
            match previous {
                Some(t) => t.interval_nanos,
                None => 0,
            },
        )
    }

    /// A thread group is gone: its timer is dropped.
    pub fn thread_group_reaped(&mut self, tgid: Pid)
        requires
            old(self).wf(),
        ensures
            final(self).wf(),
            final(self).timers() == old(self).timers().remove(tgid),
    {
        match self.timers.remove(&tgid) {
            Some(timer) => match timer.deadline_nanos {
                Some(deadline_nanos) => {
                    self.deadlines.remove(deadline_nanos, tgid as u64);
                },
                None => {},
            },
            None => {},
        }
        proof {
            assert forall|e: (u64, u64)| #[trigger] self.deadlines@.contains(e) implies e.1
                <= u32::MAX && self.timers@.contains_key(e.1 as Pid)
                && self.timers@[e.1 as Pid].deadline_nanos == Some(e.0) by {
                assert(old(self).deadlines@.contains(e));
                if e.1 as Pid == tgid {
                    assert(old(self).timers@[tgid].deadline_nanos == Some(e.0));
                }
            }
        }
    }

    fn reload(deadline: u64, interval: u64, now: u64) -> (r: u64)
        requires
            interval > 0,
            deadline <= now < u64::MAX,
        ensures
            r == next_reload(deadline, interval, now),
            r > now,
    {
        let interval_wide = interval as u128;
        let diff = (now - deadline) as u128;
        let periods = diff / interval_wide + 1;
        proof {
            assert(diff / interval_wide <= diff) by (nonlinear_arith)
                requires
                    interval_wide >= 1,
            ;
            assert(periods * interval_wide <= 0x1_0000_0000_0000_0000u128
                * 0xffff_ffff_ffff_ffffu128) by (nonlinear_arith)
                requires
                    periods <= 0x1_0000_0000_0000_0000u128,
                    interval_wide <= 0xffff_ffff_ffff_ffffu128,
            ;
            lemma_next_reload_after(deadline, interval, now);
        }
        let next = deadline as u128 + periods * interval_wide;
        if next > u64::MAX as u128 {
            u64::MAX
        } else {
            next as u64
        }
    }

    /// Takes every timer that has expired at `current_nanos`, earliest deadline first and
    /// by thread group within one deadline: one-shot timers are dropped, periodic ones move
    /// to their first reload point after `current_nanos`, and each yields a `SIGALRM` for its
    /// group. (At `u64::MAX` a periodic timer would expire forever; that instant is excluded.)
    pub fn take_expired(&mut self, current_nanos: u64) -> (r: Vec<(Pid, SignalInfo)>)
        requires
            old(self).wf(),
            current_nanos < u64::MAX,
        ensures
            final(self).wf(),
            forall|e: (u64, u64)| #[trigger] final(self).deadlines().contains(e) ==> e.0
                > current_nanos,
            alarms_only(r@),
            distinct_groups(r@),
            expiry_done(old(self).timers(), final(self).timers(), r@, current_nanos + 1, current_nanos),
    {
        let mut expired: Vec<(Pid, SignalInfo)> = Vec::new();
        let ghost mut floor: int = 0;
        loop
            invariant
                self.wf(),
                current_nanos < u64::MAX,
                0 <= floor <= current_nanos + 1,
                forall|e: (u64, u64)| #[trigger] self.deadlines@.contains(e) ==> e.0 >= floor,
                alarms_only(expired@),
                distinct_groups(expired@),
                expiry_done(old(self).timers@, self.timers@, expired@, floor, current_nanos),
                reloaded_beyond(self.timers@, floor, current_nanos),
                reported_settled(self.timers@, expired@, current_nanos),
            ensures
                self.wf(),
                forall|e: (u64, u64)| #[trigger] self.deadlines@.contains(e) ==> e.0 > current_nanos,
                alarms_only(expired@),
                distinct_groups(expired@),
                expiry_done(old(self).timers@, self.timers@, expired@, current_nanos + 1, current_nanos),
            decreases current_nanos + 1 - floor,
        {
            let deadline_nanos = match self.deadlines.earliest() {
                None => {
                    break;
                },
                Some(d) => d,
            };
            if deadline_nanos > current_nanos {
                break;
            }
            let ghost set_start = self.deadlines@;
            let tgids = self.deadlines.take_deadline(deadline_nanos);
            proof {
                assert forall|a: int| 0 <= a < tgids@.len() implies tgids@[a] <= u32::MAX by {
                    assert(tgids@.to_set().contains(tgids@[a]));
                    assert(set_start.contains((deadline_nanos, tgids@[a])));
                }
                assert forall|pid: Pid|
                    #[trigger] self.timers@.contains_key(pid) && self.timers@[pid].deadline_nanos
                        == Some(deadline_nanos) implies exists|a: int|
                        0 <= a < tgids@.len() && tgids@[a] == pid as u64 by {
                    assert(set_start.contains((deadline_nanos, pid as u64)));
                    assert(ids_at(set_start, deadline_nanos).contains(pid as u64));
                    assert(tgids@.to_set().contains(pid as u64));
                }
                assert forall|pid: Pid|
                    #[trigger] self.timers@.contains_key(pid) && reported(expired@, pid) implies !(
                    self.timers@[pid].deadline_nanos is Some && self.timers@[pid].deadline_nanos->0
                        <= current_nanos) by {
                    if old(self).timers@.contains_key(pid) {
                    }
                }
            }
            let mut k: usize = 0;
            while k < tgids.len()
                invariant
                    k <= tgids@.len(),
                    deadline_nanos <= current_nanos < u64::MAX,
                    0 <= floor <= deadline_nanos,
                    self.deadlines.wf(),
                    tgids@.to_set() == ids_at(set_start, deadline_nanos),
                    forall|a: int, b: int| 0 <= a < b < tgids@.len() ==> tgids@[a] < tgids@[b],
                    forall|a: int| 0 <= a < tgids@.len() ==> tgids@[a] <= u32::MAX,
                    forall|e: (u64, u64)| #[trigger] self.deadlines@.contains(e) ==> e.0 > deadline_nanos,
                    pending_at(self.timers@, tgids@, k as int, deadline_nanos),
                    timers_wf_except(self.timers@, self.deadlines@, deadline_nanos),
                    alarms_only(expired@),
                    distinct_groups(expired@),
                    reported_settled(self.timers@, expired@, current_nanos),
                    expiry_partial(old(self).timers@, self.timers@, expired@, floor, current_nanos, deadline_nanos, tgids@, k as int),
                    reloaded_beyond(self.timers@, floor, current_nanos),
                decreases tgids@.len() - k,
            {
                let id = tgids[k];
                let tgid = id as Pid;
                let timer = match self.timers.get(&tgid) {
                    Some(t) => *t,
                    None => {
                        k = k + 1;
                        continue;
                    },
                };
                if timer.deadline_nanos != Some(deadline_nanos) {
                    k = k + 1;
                    continue;
                }
                proof {
                    assert(!reported(expired@, tgid));
                    assert(old(self).timers@.contains_key(tgid));
                    assert(old(self).timers@[tgid] == timer);
                }
                let ghost before_timers = self.timers@;
                let ghost before_out = expired@;
                if timer.interval_nanos == 0 {
                    self.timers.remove(&tgid);
                } else {
                    let next = Self::reload(deadline_nanos, timer.interval_nanos, current_nanos);
                    self.timers.insert(
                        tgid,
                        RealTimerState {
                            deadline_nanos: Some(next),
                            interval_nanos: timer.interval_nanos,
                        },
                    );
                    self.deadlines.insert(next, tgid as u64);
                }
                expired.push((tgid, SignalInfo::kernel(SIGALRM, 0)));
                proof {
                    assert(expired@.last().0 == tgid);
                    assert(reported(expired@, tgid));
                    assert forall|pid: Pid| reported(expired@, pid) && pid != tgid implies reported(
                        before_out,
                        pid,
                    ) by {
                        let i = choose|i: int| 0 <= i < expired@.len() && expired@[i].0 == pid;
                        assert(i < before_out.len());
                        assert(before_out[i].0 == pid);
                    }
                    assert forall|pid: Pid| reported(before_out, pid) implies reported(expired@, pid) by {
                        let i = choose|i: int| 0 <= i < before_out.len() && before_out[i].0 == pid;
                        assert(expired@[i].0 == pid);
                    }
                    assert forall|pid: Pid|
                        #[trigger] self.timers@.contains_key(pid) && self.timers@[pid].deadline_nanos
                            == Some(deadline_nanos) implies exists|a: int|
                            k + 1 <= a < tgids@.len() && tgids@[a] == pid as u64 by {
                        assert(pid != tgid);
                        assert(before_timers.contains_key(pid));
                        let a = choose|a: int| k <= a < tgids@.len() && tgids@[a] == pid as u64;
                        assert(a != k);
                    }
                }
                k = k + 1;
            }
            proof {
                floor = deadline_nanos + 1;
            }
        }
        expired
    }
}

/// The reload point lies beyond the instant the expiry was found.
pub proof fn lemma_next_reload_after(d: u64, interval: u64, now: u64)
    requires
        interval > 0,
        d <= now < u64::MAX,
    ensures
        next_reload(d, interval, now) > now,
{
    let x = now - d;
    let i = interval as int;
    assert(x < (x / i + 1) * i) by (nonlinear_arith)
        requires
            i > 0,
            x >= 0,
    ;
}

/// Groups already reported no longer have a timer due at `now`.
pub open spec fn reported_settled(timers: Map<Pid, RealTimerState>, out: Seq<(Pid, SignalInfo)>, now: u64) -> bool {
    forall|pid: Pid|
        #[trigger] timers.contains_key(pid) && reported(out, pid) ==> !(
        timers[pid].deadline_nanos is Some && timers[pid].deadline_nanos->0 <= now)
}

/// The signal every expiry raises.
pub open spec fn alarm_info() -> SignalInfo {
    SignalInfo { signal: SIGALRM, code: 0, status: 0, pid: 0, uid: 0 }
}

/// Every expiry raises `SIGALRM`.
pub open spec fn alarms_only(out: Seq<(Pid, SignalInfo)>) -> bool {
    forall|i: int| 0 <= i < out.len() ==> (#[trigger] out[i]).1 == alarm_info()
}

/// No thread group expires twice.
pub open spec fn distinct_groups(out: Seq<(Pid, SignalInfo)>) -> bool {
    forall|i: int, j: int| 0 <= i < j < out.len() ==> out[i].0 != out[j].0
}

/// Whether `pid` is among the expired.
pub open spec fn reported(out: Seq<(Pid, SignalInfo)>, pid: Pid) -> bool {
    exists|i: int| 0 <= i < out.len() && out[i].0 == pid
}

/// What became of a timer `t` that expired at deadline `d`.
pub open spec fn expired_as(t: RealTimerState, d: u64, new: Map<Pid, RealTimerState>, pid: Pid, now: u64) -> bool {
    if t.interval_nanos == 0 {
        !new.contains_key(pid)
    } else {
        new.contains_key(pid) && new[pid] == (RealTimerState {
            deadline_nanos: Some(next_reload(d, t.interval_nanos, now)),
            interval_nanos: t.interval_nanos,
        })
    }
}

/// Every timer whose deadline lies below `bound` has expired once and was dropped or
/// reloaded; every other timer is unchanged and not reported; no timer appears.
pub open spec fn expiry_done(
    old: Map<Pid, RealTimerState>,
    new: Map<Pid, RealTimerState>,
    out: Seq<(Pid, SignalInfo)>,
    bound: int,
    now: u64,
) -> bool {
    &&& forall|pid: Pid|
        #[trigger] old.contains_key(pid) ==> if old[pid].deadline_nanos is Some
            && old[pid].deadline_nanos->0 < bound {
            reported(out, pid) && expired_as(old[pid], old[pid].deadline_nanos->0, new, pid, now)
        } else {
            !reported(out, pid) && new.contains_key(pid) && new[pid] == old[pid]
        }
    &&& forall|pid: Pid|
        !#[trigger] old.contains_key(pid) ==> !new.contains_key(pid) && !reported(out, pid)
}

/// As `expiry_done`, while the timers at `deadline` are handled: those of the first `k`
/// IDs count as done.
pub open spec fn expiry_partial(
    old: Map<Pid, RealTimerState>,
    new: Map<Pid, RealTimerState>,
    out: Seq<(Pid, SignalInfo)>,
    floor: int,
    now: u64,
    deadline: u64,
    ids: Seq<u64>,
    k: int,
) -> bool {
    &&& forall|pid: Pid|
        #[trigger] old.contains_key(pid) ==> if old[pid].deadline_nanos is Some && (
        old[pid].deadline_nanos->0 < floor || (old[pid].deadline_nanos->0 == deadline && exists|
            a: int,
        | 0 <= a < k && ids[a] == pid as u64)) {
            reported(out, pid) && expired_as(old[pid], old[pid].deadline_nanos->0, new, pid, now)
        } else {
            !reported(out, pid) && new.contains_key(pid) && new[pid] == old[pid]
        }
    &&& forall|pid: Pid|
        !#[trigger] old.contains_key(pid) ==> !new.contains_key(pid) && !reported(out, pid)
}

/// Timers whose deadline lies below `floor` have been reloaded beyond `now`.
pub open spec fn reloaded_beyond(timers: Map<Pid, RealTimerState>, floor: int, now: u64) -> bool {
    forall|pid: Pid|
        #[trigger] timers.contains_key(pid) && timers[pid].deadline_nanos is Some
            && timers[pid].deadline_nanos->0 < floor ==> timers[pid].deadline_nanos->0 > now
}

/// The timers still due at `deadline` are those of the IDs from `k` on.
pub open spec fn pending_at(timers: Map<Pid, RealTimerState>, ids: Seq<u64>, k: int, deadline: u64) -> bool {
    forall|pid: Pid|
        #[trigger] timers.contains_key(pid) && timers[pid].deadline_nanos == Some(deadline)
            ==> exists|a: int| k <= a < ids.len() && ids[a] == pid as u64
}

/// The invariant of the registry while the entries at `deadline` are out of the set.
pub open spec fn timers_wf_except(timers: Map<Pid, RealTimerState>, dl: Set<(u64, u64)>, deadline: u64) -> bool {
    &&& forall|pid: Pid|
        #[trigger] timers.contains_key(pid) ==> !(timers[pid].deadline_nanos is None
            && timers[pid].interval_nanos == 0)
    &&& forall|pid: Pid|
        #[trigger] timers.contains_key(pid) && timers[pid].deadline_nanos is Some
            && timers[pid].deadline_nanos != Some(deadline) ==> dl.contains(
            (timers[pid].deadline_nanos->0, pid as u64),
        )
    &&& forall|e: (u64, u64)|
        #[trigger] dl.contains(e) ==> e.1 <= u32::MAX && timers.contains_key(e.1 as Pid)
            && timers[e.1 as Pid].deadline_nanos == Some(e.0)
}

} // verus!
