//! `timerfd`: timers read through a file descriptor, counting their expirations.
use vstd::prelude::*;

use super::error::FsError;
use crate::deadline::{DeadlineSet, first_deadline, ids_at, is_earliest, lemma_earliest_exists};
use crate::errno::{SysErr, SysResult};
use crate::timespec::{
    CLOCK_BOOTTIME, CLOCK_BOOTTIME_ALARM, CLOCK_MONOTONIC, CLOCK_REALTIME, CLOCK_REALTIME_ALARM,
    LinuxTimespec, NANOS_PER_SEC, ns_to_timespec, read_timespec_at, spec_ns_to_timespec,
    timespec_at, timespec_nanos, timespec_valid,
};
use crate::wire::{i64_le, le_i64_at, lemma_i64_roundtrip, lemma_le_u64_at_concat, lemma_le_u64_at_prefix};

verus! {

pub const TFD_TIMER_ABSTIME: u64 = 0x1;
pub const TFD_TIMER_CANCEL_ON_SET: u64 = 0x2;
pub const TFD_CLOEXEC: u64 = 0o2000000;
pub const TFD_NONBLOCK: u64 = 0o0004000;
pub const TFD_CREATE_FLAGS: u64 = 0o2004000;
pub const TFD_SETTIME_FLAGS: u64 = 0x3;

/// The clock a timer runs on.
#[derive(Debug, Clone, Copy, PartialEq, Eq, Structural)]
pub enum TimerFdClock {
    Realtime,
    Monotonic,
    Boottime,
    RealtimeAlarm,
    BoottimeAlarm,
}

/// Which deadline list a clock's timers go to.
#[derive(Debug, Clone, Copy, PartialEq, Eq, Structural)]
pub enum DeadlineClass {
    Monotonic,
    Realtime,
}

/// The deadline list of a clock: wall-clock timers on the real-time list, the others on
/// the monotonic list.
pub open spec fn spec_deadline_class(clock: TimerFdClock) -> DeadlineClass {
    match clock {
        TimerFdClock::Realtime | TimerFdClock::RealtimeAlarm => DeadlineClass::Realtime,
        _ => DeadlineClass::Monotonic,
    }
}

impl TimerFdClock {
    pub fn deadline_class(self) -> (r: DeadlineClass)
        ensures
            r == spec_deadline_class(self),
    {
        match self {
            TimerFdClock::Realtime | TimerFdClock::RealtimeAlarm => DeadlineClass::Realtime,
            TimerFdClock::Monotonic | TimerFdClock::Boottime | TimerFdClock::BoottimeAlarm => {
                DeadlineClass::Monotonic
            },
        }
    }
}

/// The clock of a `timerfd_create` clock ID; any other ID is `Inval`.
pub open spec fn spec_parse_clock(clock_id: i32) -> SysResult<TimerFdClock> {
    let id = clock_id as u64;
    if id == CLOCK_REALTIME {
        Ok(TimerFdClock::Realtime)
    } else if id == CLOCK_MONOTONIC {
        Ok(TimerFdClock::Monotonic)
    } else if id == CLOCK_BOOTTIME {
        Ok(TimerFdClock::Boottime)
    } else if id == CLOCK_REALTIME_ALARM {
        Ok(TimerFdClock::RealtimeAlarm)
    } else if id == CLOCK_BOOTTIME_ALARM {
        Ok(TimerFdClock::BoottimeAlarm)
    } else {
        Err(SysErr::Inval)
    }
}

/// Reads the clock ID of `timerfd_create`. The alarm clocks run as their plain clocks.
pub fn parse_timerfd_clock(clock_id: i32) -> (r: SysResult<TimerFdClock>)
    ensures
        r == spec_parse_clock(clock_id),
{
    let id = clock_id as u64;
    if id == CLOCK_REALTIME {
        Ok(TimerFdClock::Realtime)
    } else if id == CLOCK_MONOTONIC {
        Ok(TimerFdClock::Monotonic)
    } else if id == CLOCK_BOOTTIME {
        Ok(TimerFdClock::Boottime)
    } else if id == CLOCK_REALTIME_ALARM {
        Ok(TimerFdClock::RealtimeAlarm)
    } else if id == CLOCK_BOOTTIME_ALARM {
        Ok(TimerFdClock::BoottimeAlarm)
    } else {
        Err(SysErr::Inval)
    }
}

/// An `itimerspec`: reload interval and time to the next expiry.
#[derive(Debug, Clone, Copy, PartialEq, Eq, Structural)]
pub struct LinuxItimerSpec {
    pub it_interval: LinuxTimespec,
    pub it_value: LinuxTimespec,
}

impl LinuxItimerSpec {
    /// Size of the record.
    pub const SIZE: usize = 32;

    /// Reads the record from the bytes read from user memory: anything but 32 bytes is
    /// `Fault`; an invalid interval or value is `Inval`.
    pub fn read_from(bytes: &[u8]) -> (r: SysResult<Self>)
        ensures
            bytes@.len() != 32 ==> r == Err::<Self, SysErr>(SysErr::Fault),
            bytes@.len() == 32 ==> {
                let interval = timespec_at(bytes@, 0);
                let value = timespec_at(bytes@, 16);
                if timespec_valid(interval) && timespec_valid(value) {
                    r == Ok::<Self, SysErr>(LinuxItimerSpec { it_interval: interval, it_value: value })
                } else {
                    r == Err::<Self, SysErr>(SysErr::Inval)
                }
            },
    {
        if bytes.len() != Self::SIZE {
            return Err(SysErr::Fault);
        }
        let it_interval = read_timespec_at(bytes, 0).validate()?;
        let it_value = read_timespec_at(bytes, 16).validate()?;
        Ok(LinuxItimerSpec { it_interval, it_value })
    }

    /// The bytes to write to user memory.
    pub fn write_to(self) -> (r: Vec<u8>)
        ensures
            r@ == itimerspec_bytes(self),
    {
        let mut bytes: Vec<u8> = Vec::with_capacity(Self::SIZE);
        self.it_interval.to_bytes(&mut bytes);
        self.it_value.to_bytes(&mut bytes);
        bytes
    }

    /// The interval in nanoseconds.
    pub fn interval_ns(self) -> (r: SysResult<u64>)
        ensures
            (timespec_valid(self.it_interval) && timespec_nanos(self.it_interval) <= u64::MAX)
                ==> r == Ok::<u64, SysErr>(timespec_nanos(self.it_interval) as u64),
            !(timespec_valid(self.it_interval) && timespec_nanos(self.it_interval) <= u64::MAX)
                ==> r == Err::<u64, SysErr>(SysErr::Inval),
    {
        self.it_interval.total_nanos()
    }

    /// The value in nanoseconds.
    pub fn value_ns(self) -> (r: SysResult<u64>)
        ensures
            (timespec_valid(self.it_value) && timespec_nanos(self.it_value) <= u64::MAX) ==> r
                == Ok::<u64, SysErr>(timespec_nanos(self.it_value) as u64),
            !(timespec_valid(self.it_value) && timespec_nanos(self.it_value) <= u64::MAX) ==> r
                == Err::<u64, SysErr>(SysErr::Inval),
    {
        self.it_value.total_nanos()
    }
}

/// The 32 bytes of an `itimerspec`: interval seconds and nanoseconds, then value seconds
/// and nanoseconds, each least significant byte first.
pub open spec fn itimerspec_bytes(spec: LinuxItimerSpec) -> Seq<u8> {
    i64_le(spec.it_interval.tv_sec) + i64_le(spec.it_interval.tv_nsec) + i64_le(spec.it_value.tv_sec)
        + i64_le(spec.it_value.tv_nsec)
}

/// The bytes written for a record read back as that record: 32 bytes, with its interval
/// at offset 0 and its value at offset 16. So `read_from` of what `write_to` wrote gives
/// the record back when both are valid.
pub proof fn lemma_itimerspec_roundtrip(spec: LinuxItimerSpec)
    ensures
        itimerspec_bytes(spec).len() == 32,
        timespec_at(itimerspec_bytes(spec), 0) == spec.it_interval,
        timespec_at(itimerspec_bytes(spec), 16) == spec.it_value,
{
    let a = i64_le(spec.it_interval.tv_sec);
    let b = i64_le(spec.it_interval.tv_nsec);
    let c = i64_le(spec.it_value.tv_sec);
    let d = i64_le(spec.it_value.tv_nsec);
    lemma_i64_roundtrip(spec.it_interval.tv_sec);
    lemma_i64_roundtrip(spec.it_interval.tv_nsec);
    lemma_i64_roundtrip(spec.it_value.tv_sec);
    lemma_i64_roundtrip(spec.it_value.tv_nsec);
    let ab = a + b;
    let abc = ab + c;
    let all = abc + d;
    lemma_le_u64_at_prefix(abc, d, 0);
    lemma_le_u64_at_prefix(ab, c, 0);
    lemma_le_u64_at_prefix(a, b, 0);
    lemma_le_u64_at_prefix(abc, d, 8);
    lemma_le_u64_at_prefix(ab, c, 8);
    lemma_le_u64_at_concat(a, b, 0);
    lemma_le_u64_at_prefix(abc, d, 16);
    lemma_le_u64_at_concat(ab, c, 0);
    lemma_le_u64_at_concat(abc, d, 0);
    assert(le_i64_at(all, 0) == spec.it_interval.tv_sec);
    assert(le_i64_at(all, 8) == spec.it_interval.tv_nsec);
    assert(le_i64_at(all, 16) == spec.it_value.tv_sec);
    assert(le_i64_at(all, 24) == spec.it_value.tv_nsec);
}

/// The running state of one timer.
#[derive(Debug, Clone, Copy, PartialEq, Eq, Structural)]
pub struct TimerFdState {
    pub interval_ns: u64,
    /// The next expiry; 0 when disarmed.
    pub expires_ns: u64,
    /// Expirations not yet read.
    pub ticks: u64,
    pub cancel_on_set: bool,
}

/// The earliest deadline of `s`, where `u64::MAX` stands for none.
pub open spec fn pending_deadline(s: Set<(u64, u64)>) -> Option<u64> {
    match first_deadline(s) {
        Some(d) => if d == u64::MAX {
            None
        } else {
            Some(d)
        },
        None => None,
    }
}

/// Whether a pending deadline has been reached at `now`.
pub open spec fn due_by(deadline: Option<u64>, now: u64) -> bool {
    match deadline {
        Some(d) => d <= now,
        None => false,
    }
}

/// A realtime deadline as a monotonic instant: now when it has passed, else now plus
/// the time left, saturating.
pub open spec fn realtime_as_monotonic(deadline: Option<u64>, now_monotonic: u64, now_realtime: u64) -> Option<u64> {
    match deadline {
        Some(d) => Some(
            if d <= now_realtime {
                now_monotonic
            } else {
                sat_add(now_monotonic, (d - now_realtime) as u64)
            },
        ),
        None => None,
    }
}

/// The earlier of two optional instants.
pub open spec fn earlier_of(a: Option<u64>, b: Option<u64>) -> Option<u64> {
    match (a, b) {
        (Some(x), Some(y)) => Some(if x <= y { x } else { y }),
        (Some(x), None) => Some(x),
        (None, Some(y)) => Some(y),
        (None, None) => None,
    }
}

/// `a + b`, saturating at `u64::MAX`.
pub open spec fn sat_add(a: u64, b: u64) -> u64 {
    if a + b > u64::MAX {
        u64::MAX
    } else {
        (a + b) as u64
    }
}

/// `a * b`, saturating at `u64::MAX`.
pub open spec fn sat_mul(a: u64, b: u64) -> u64 {
    if a * b > u64::MAX {
        u64::MAX
    } else {
        (a * b) as u64
    }
}

fn mul_saturating(a: u64, b: u64) -> (r: u64)
    ensures
        r == sat_mul(a, b),
{
    match a.checked_mul(b) {
        Some(v) => v,
        None => u64::MAX,
    }
}

/// `a - b`, stopping at 0.
pub open spec fn sat_sub(a: u64, b: u64) -> u64 {
    if a > b {
        (a - b) as u64
    } else {
        0
    }
}

/// Whether the timer has expired at `now`.
pub open spec fn is_due(s: TimerFdState, now: u64) -> bool {
    s.expires_ns != 0 && now >= s.expires_ns
}

/// The state once the expirations up to `now` are counted: a one-shot timer counts one and
/// disarms; a periodic one counts every period that has begun and moves to the next.
pub open spec fn refreshed(s: TimerFdState, now: u64) -> TimerFdState {
    if !is_due(s, now) {
        s
    } else if s.interval_ns == 0 {
        TimerFdState { ticks: sat_add(s.ticks, 1), expires_ns: 0, ..s }
    } else {
        let periods = ((now - s.expires_ns) / (s.interval_ns as int) + 1) as u64;
        TimerFdState {
            ticks: sat_add(s.ticks, periods),
            expires_ns: sat_add(s.expires_ns, sat_mul(periods, s.interval_ns)),
            ..s
        }
    }
}

/// The deadline list after a timer's entry moves from `old_expires` to `new_expires`
/// (an expiry of 0 has no entry).
pub open spec fn moved_entry(set: Set<(u64, u64)>, id: u64, old_expires: u64, new_expires: u64) -> Set<(u64, u64)> {
    let removed = set.remove((old_expires, id));
    if new_expires != 0 {
        removed.insert((new_expires, id))
    } else {
        removed
    }
}

/// The deadline list after timer `id`, in state `s`, is refreshed at `now`: its entry
/// moves with the expiry when the timer was due, else nothing changes.
pub open spec fn refresh_moved(set: Set<(u64, u64)>, id: u64, s: TimerFdState, now: u64) -> Set<(u64, u64)> {
    if is_due(s, now) {
        moved_entry(set, id, s.expires_ns, refreshed(s, now).expires_ns)
    } else {
        set
    }
}

/// The deadline list after timer `id`, in state `current` (already refreshed), is re-armed
/// as `armed` at `now`: the entry of the current expiry goes; a new expiry that has already
/// passed is counted at once, its entry moving with that refresh; a later one is filed.
pub open spec fn rearmed_entries(
    set: Set<(u64, u64)>,
    id: u64,
    current: TimerFdState,
    armed: TimerFdState,
    now: u64,
) -> Set<(u64, u64)> {
    let cleared = if current.expires_ns != 0 {
        set.remove((current.expires_ns, id))
    } else {
        set
    };
    if armed.expires_ns == 0 {
        cleared
    } else if armed.expires_ns <= now {
        refresh_moved(cleared, id, armed, now)
    } else {
        cleared.insert((armed.expires_ns, id))
    }
}

/// The deadline lists of all timer files and the next timer ID.
pub struct TimerFdRegistry {
    next_id: u64,
    monotonic: DeadlineSet,
    realtime: DeadlineSet,
}

impl TimerFdRegistry {
    pub closed spec fn next_id(&self) -> u64 {
        self.next_id
    }

    /// The deadline list of a class.
    pub closed spec fn deadlines(&self, class: DeadlineClass) -> Set<(u64, u64)> {
        match class {
            DeadlineClass::Monotonic => self.monotonic@,
            DeadlineClass::Realtime => self.realtime@,
        }
    }

    pub closed spec fn wf(&self) -> bool {
        self.monotonic.wf() && self.realtime.wf()
    }

    /// Each deadline list is finite.
    pub proof fn lemma_deadlines_finite(&self, class: DeadlineClass)
        ensures
            self.deadlines(class).finite(),
    {
        self.monotonic.lemma_finite();
        self.realtime.lemma_finite();
    }

    /// No timers; IDs start at 1.
    pub fn new() -> (r: Self)
        ensures
            r.wf(),
            r.next_id() == 1,
            r.deadlines(DeadlineClass::Monotonic) == Set::<(u64, u64)>::empty(),
            r.deadlines(DeadlineClass::Realtime) == Set::<(u64, u64)>::empty(),
    {
        TimerFdRegistry { next_id: 1, monotonic: DeadlineSet::new(), realtime: DeadlineSet::new() }
    }

    fn allocate_id(&mut self) -> (r: u64)
        requires
            old(self).wf(),
        ensures
            final(self).wf(),
            r == old(self).next_id(),
            final(self).next_id() == sat_add(old(self).next_id(), 1),
            final(self).deadlines(DeadlineClass::Monotonic) == old(self).deadlines(
                DeadlineClass::Monotonic,
            ),
            final(self).deadlines(DeadlineClass::Realtime) == old(self).deadlines(
                DeadlineClass::Realtime,
            ),
    {
        let id = self.next_id;
        self.next_id = self.next_id.saturating_add(1);
        id
    }

    fn insert_deadline(&mut self, class: DeadlineClass, deadline_ns: u64, id: u64)
        requires
            old(self).wf(),
        ensures
            final(self).wf(),
            final(self).next_id() == old(self).next_id(),
            final(self).deadlines(class) == old(self).deadlines(class).insert((deadline_ns, id)),
            forall|c: DeadlineClass| c != class ==> #[trigger] final(self).deadlines(c) == old(self).deadlines(c),
    {
        match class {
            DeadlineClass::Monotonic => self.monotonic.insert(deadline_ns, id),
            DeadlineClass::Realtime => self.realtime.insert(deadline_ns, id),
        }
    }

    fn remove_deadline(&mut self, class: DeadlineClass, deadline_ns: u64, id: u64)
        requires
            old(self).wf(),
        ensures
            final(self).wf(),
            final(self).next_id() == old(self).next_id(),
            final(self).deadlines(class) == old(self).deadlines(class).remove((deadline_ns, id)),
            forall|c: DeadlineClass| c != class ==> #[trigger] final(self).deadlines(c) == old(self).deadlines(c),
    {
        match class {
            DeadlineClass::Monotonic => self.monotonic.remove(deadline_ns, id),
            DeadlineClass::Realtime => self.realtime.remove(deadline_ns, id),
        }
    }

    /// The earliest deadline of a class; `u64::MAX` reads as none.
    pub fn next_deadline(&self, class: DeadlineClass) -> (r: Option<u64>)
        requires
            self.wf(),
        ensures
            r == pending_deadline(self.deadlines(class)),
    {
        let e = match class {
            DeadlineClass::Monotonic => self.monotonic.earliest(),
            DeadlineClass::Realtime => self.realtime.earliest(),
        };
        match e {
            None => None,
            Some(d) => {
                if d == u64::MAX {
                    None
                } else {
                    Some(d)
                }
            },
        }
    }

    /// Whether some timer is due: the monotonic list at `now_monotonic` or the realtime
    /// list at `now_realtime`.
    pub fn deadline_due(&self, now_monotonic: u64, now_realtime: u64) -> (r: bool)
        requires
            self.wf(),
        ensures
            r == (due_by(pending_deadline(self.deadlines(DeadlineClass::Monotonic)), now_monotonic)
                || due_by(pending_deadline(self.deadlines(DeadlineClass::Realtime)), now_realtime)),
    {
        let mono = self.next_deadline(DeadlineClass::Monotonic);
        let realtime_next = self.next_deadline(DeadlineClass::Realtime);
        let a = match mono {
            Some(d) => d <= now_monotonic,
            None => false,
        };
        let b = match realtime_next {
            Some(d) => d <= now_realtime,
            None => false,
        };
        a || b
    }

    /// The monotonic instant at which the next timer is due: the realtime deadline is
    /// converted by its distance from `now_realtime` (now, when already passed), and the
    /// earlier of the two is taken.
    pub fn next_wakeup_deadline(&self, now_monotonic: u64, now_realtime: u64) -> (r: Option<u64>)
        requires
            self.wf(),
        ensures
            r == earlier_of(
                pending_deadline(self.deadlines(DeadlineClass::Monotonic)),
                realtime_as_monotonic(
                    pending_deadline(self.deadlines(DeadlineClass::Realtime)),
                    now_monotonic,
                    now_realtime,
                ),
            ),
    {
        let mono = self.next_deadline(DeadlineClass::Monotonic);
        let realtime_next = self.next_deadline(DeadlineClass::Realtime);
        let realtime_deadline = match realtime_next {
            None => None,
            Some(realtime) => Some(
                if realtime <= now_realtime {
                    now_monotonic
                } else {
                    now_monotonic.saturating_add(realtime - now_realtime)
                },
            ),
        };
        match (mono, realtime_deadline) {
            (Some(left), Some(right)) => Some(
                if left <= right {
                    left
                } else {
                    right
                },
            ),
            (Some(value), None) => Some(value),
            (None, Some(value)) => Some(value),
            (None, None) => None,
        }
    }

    /// Takes the timers due at the earliest deadline of `class`, if it has passed at
    /// `now_ns`; the caller then refreshes each of them (see `TimerFdFile::refresh_due`).
    pub fn take_due(&mut self, class: DeadlineClass, now_ns: u64) -> (r: Option<Vec<u64>>)
        requires
            old(self).wf(),
        ensures
            final(self).wf(),
            final(self).next_id() == old(self).next_id(),
            forall|c: DeadlineClass| c != class ==> #[trigger] final(self).deadlines(c) == old(self).deadlines(c),
            due_by(first_deadline(old(self).deadlines(class)), now_ns) ==> {
                let d = first_deadline(old(self).deadlines(class))->0;
                &&& r matches Some(ids)
                &&& r->0@.to_set() == ids_at(old(self).deadlines(class), d)
                &&& forall|a: int, b: int| 0 <= a < b < r->0@.len() ==> r->0@[a] < r->0@[b]
                &&& final(self).deadlines(class) == old(self).deadlines(class).filter(
                    |e: (u64, u64)| e.0 != d,
                )
            },
            !due_by(first_deadline(old(self).deadlines(class)), now_ns) ==> r is None
                && final(self).deadlines(class) == old(self).deadlines(class),
    {
        let set = match class {
            DeadlineClass::Monotonic => &mut self.monotonic,
            DeadlineClass::Realtime => &mut self.realtime,
        };
        match set.earliest() {
            None => None,
            Some(d) => {
                if d > now_ns {
                    None
                } else {
                    let ids = set.take_deadline(d);
                    Some(ids)
                }
            },
        }
    }
}

/// A timer file.
pub struct TimerFdFile {
    id: u64,
    clock: TimerFdClock,
    state: TimerFdState,
    version: u64,
}

impl TimerFdFile {
    pub closed spec fn id(&self) -> u64 {
        self.id
    }

    pub closed spec fn clock(&self) -> TimerFdClock {
        self.clock
    }

    pub closed spec fn state(&self) -> TimerFdState {
        self.state
    }

    pub closed spec fn spec_version(&self) -> u64 {
        self.version
    }

    /// A disarmed timer on `clock`, with a fresh ID from the registry.
    pub fn create(registry: &mut TimerFdRegistry, clock: TimerFdClock) -> (r: Self)
        requires
            old(registry).wf(),
        ensures
            final(registry).wf(),
            r.id() == old(registry).next_id(),
            final(registry).next_id() == sat_add(old(registry).next_id(), 1),
            r.clock() == clock,
            r.state() == (TimerFdState {
                interval_ns: 0,
                expires_ns: 0,
                ticks: 0,
                cancel_on_set: false,
            }),
            r.spec_version() == 1,
            forall|c: DeadlineClass| #[trigger] final(registry).deadlines(c) == old(registry).deadlines(c),
    {
        let id = registry.allocate_id();
        TimerFdFile {
            id,
            clock,
            state: TimerFdState { interval_ns: 0, expires_ns: 0, ticks: 0, cancel_on_set: false },
            version: 1,
        }
    }

    /// A counter that changes whenever the timer is set or read.
    pub fn version(&self) -> (r: u64)
        ensures
            r == self.spec_version(),
    {
        self.version
    }

    fn bump(&mut self)
        ensures
            final(self).spec_version() == (if old(self).spec_version() == u64::MAX {
                0
            } else {
                (old(self).spec_version() + 1) as u64
            }),
            final(self).id() == old(self).id(),
            final(self).clock() == old(self).clock(),
            final(self).state() == old(self).state(),
    {
        self.version = if self.version == u64::MAX {
            0
        } else {
            self.version + 1
        };
    }

    fn refresh_due_locked(
        registry: &mut TimerFdRegistry,
        id: u64,
        clock: TimerFdClock,
        state: &mut TimerFdState,
        now_ns: u64,
    ) -> (r: bool)
        requires
            old(registry).wf(),
        ensures
            final(registry).wf(),
            final(registry).next_id() == old(registry).next_id(),
            r == is_due(*old(state), now_ns),
            *final(state) == refreshed(*old(state), now_ns),
            r ==> final(registry).deadlines(spec_deadline_class(clock)) == moved_entry(
                old(registry).deadlines(spec_deadline_class(clock)),
                id,
                old(state).expires_ns,
                final(state).expires_ns,
            ),
            !r ==> final(registry).deadlines(spec_deadline_class(clock)) == old(registry).deadlines(spec_deadline_class(clock)),
            forall|c: DeadlineClass| c != spec_deadline_class(clock) ==> #[trigger] final(registry).deadlines(c) == old(registry).deadlines(c),
    {
        if state.expires_ns == 0 || now_ns < state.expires_ns {
            return false;
        }
        let class = clock.deadline_class();
        registry.remove_deadline(class, state.expires_ns, id);
        if state.interval_ns == 0 {
            state.ticks = state.ticks.saturating_add(1);
            state.expires_ns = 0;
        } else {
            let delta = now_ns - state.expires_ns;
            let periods = delta / state.interval_ns + 1;
            state.ticks = state.ticks.saturating_add(periods);
            state.expires_ns = state.expires_ns.saturating_add(
                mul_saturating(periods, state.interval_ns),
            );
            assert(state.expires_ns != 0);
            registry.insert_deadline(class, state.expires_ns, id);
        }
        true
    }

    /// Counts the expirations up to `now_ns` and moves the timer's deadline entry with it;
    /// `true` when the timer had expired.
    pub fn refresh_due(&mut self, registry: &mut TimerFdRegistry, now_ns: u64) -> (r: bool)
        requires
            old(registry).wf(),
        ensures
            final(registry).wf(),
            final(registry).next_id() == old(registry).next_id(),
            r == is_due(old(self).state(), now_ns),
            final(self).state() == refreshed(old(self).state(), now_ns),
            final(self).id() == old(self).id() && final(self).clock() == old(self).clock(),
            final(self).spec_version() == old(self).spec_version(),
            r ==> final(registry).deadlines(spec_deadline_class(old(self).clock())) == moved_entry(
                old(registry).deadlines(spec_deadline_class(old(self).clock())),
                old(self).id(),
                old(self).state().expires_ns,
                final(self).state().expires_ns,
            ),
            !r ==> final(registry).deadlines(spec_deadline_class(old(self).clock())) == old(registry).deadlines(spec_deadline_class(old(self).clock())),
            forall|c: DeadlineClass| c != spec_deadline_class(old(self).clock()) ==> #[trigger] final(registry).deadlines(c) == old(registry).deadlines(c),
    {
        Self::refresh_due_locked(registry, self.id, self.clock, &mut self.state, now_ns)
    }

    /// `timerfd_gettime` at `now_ns`: the interval and the time left to the next expiry,
    /// after expirations are counted.
    pub fn get_time(&mut self, registry: &mut TimerFdRegistry, now_ns: u64) -> (r: LinuxItimerSpec)
        requires
            old(registry).wf(),
        ensures
            final(registry).wf(),
            final(self).state() == refreshed(old(self).state(), now_ns),
            final(self).id() == old(self).id() && final(self).clock() == old(self).clock(),
            final(self).spec_version() == old(self).spec_version(),
            final(registry).next_id() == old(registry).next_id(),
            final(registry).deadlines(spec_deadline_class(old(self).clock())) == refresh_moved(
                old(registry).deadlines(spec_deadline_class(old(self).clock())),
                old(self).id(),
                old(self).state(),
                now_ns,
            ),
            forall|c: DeadlineClass| c != spec_deadline_class(old(self).clock()) ==> #[trigger] final(registry).deadlines(c) == old(registry).deadlines(c),
            r == (LinuxItimerSpec {
                it_interval: spec_ns_to_timespec(final(self).state().interval_ns),
                it_value: spec_ns_to_timespec(sat_sub(final(self).state().expires_ns, now_ns)),
            }),
    {
        let _ = Self::refresh_due_locked(registry, self.id, self.clock, &mut self.state, now_ns);
        let remaining_ns = self.state.expires_ns.saturating_sub(now_ns);
        LinuxItimerSpec {
            it_interval: ns_to_timespec(self.state.interval_ns),
            it_value: ns_to_timespec(remaining_ns),
        }
    }

    /// `timerfd_settime` at `now_ns`. A bad interval or value, or `TFD_TIMER_CANCEL_ON_SET`
    /// without an absolute real-time timer, is `Inval` and changes nothing. Otherwise the
    /// setting before the call is returned, the timer is re-armed (relative to `now_ns`
    /// unless `TFD_TIMER_ABSTIME`; disarmed for a zero value), an expiry already passed is
    /// counted at once, and the version moves on.
    pub fn set_time(
        &mut self,
        registry: &mut TimerFdRegistry,
        flags: u64,
        spec: LinuxItimerSpec,
        now_ns: u64,
    ) -> (r: SysResult<LinuxItimerSpec>)
        requires
            old(registry).wf(),
        ensures
            final(registry).wf(),
            final(registry).next_id() == old(registry).next_id(),
            final(self).id() == old(self).id() && final(self).clock() == old(self).clock(),
            ({
                let iv_ok = timespec_valid(spec.it_interval) && timespec_nanos(spec.it_interval)
                    <= u64::MAX;
                let val_ok = timespec_valid(spec.it_value) && timespec_nanos(spec.it_value)
                    <= u64::MAX;
                let absolute = flags & TFD_TIMER_ABSTIME != 0;
                let cancel = flags & TFD_TIMER_CANCEL_ON_SET != 0;
                let realtime = old(self).clock() == TimerFdClock::Realtime || old(self).clock()
                    == TimerFdClock::RealtimeAlarm;
                if !iv_ok || !val_ok || (cancel && (!absolute || !realtime)) {
                    &&& r == Err::<LinuxItimerSpec, SysErr>(SysErr::Inval)
                    &&& final(self).state() == old(self).state()
                    &&& final(self).spec_version() == old(self).spec_version()
                    &&& forall|c: DeadlineClass| #[trigger] final(registry).deadlines(c) == old(registry).deadlines(c)
                } else {
                    let interval = timespec_nanos(spec.it_interval) as u64;
                    let value = timespec_nanos(spec.it_value) as u64;
                    let current = refreshed(old(self).state(), now_ns);
                    let expires = if value == 0 {
                        0
                    } else if absolute {
                        value
                    } else {
                        sat_add(now_ns, value)
                    };
                    let armed = TimerFdState {
                        interval_ns: interval,
                        cancel_on_set: cancel,
                        expires_ns: expires,
                        ..current
                    };
                    &&& r == Ok::<LinuxItimerSpec, SysErr>(
                        LinuxItimerSpec {
                            it_interval: spec_ns_to_timespec(current.interval_ns),
                            it_value: spec_ns_to_timespec(sat_sub(current.expires_ns, now_ns)),
                        },
                    )
                    &&& final(self).state() == refreshed(armed, now_ns)
                    &&& final(registry).deadlines(spec_deadline_class(old(self).clock())) == rearmed_entries(
                        refresh_moved(
                            old(registry).deadlines(spec_deadline_class(old(self).clock())),
                            old(self).id(),
                            old(self).state(),
                            now_ns,
                        ),
                        old(self).id(),
                        current,
                        armed,
                        now_ns,
                    )
                    &&& forall|c: DeadlineClass| c != spec_deadline_class(old(self).clock()) ==> #[trigger] final(registry).deadlines(c) == old(registry).deadlines(c)
                    &&& final(self).spec_version() == (if old(self).spec_version() == u64::MAX {
                        0
                    } else {
                        (old(self).spec_version() + 1) as u64
                    })
                }
            }),
    {
        let interval_ns = match spec.interval_ns() {
            Ok(v) => v,
            Err(e) => {
                return Err(e);
            },
        };
        let value_ns = match spec.value_ns() {
            Ok(v) => v,
            Err(e) => {
                return Err(e);
            },
        };
        let absolute = (flags & TFD_TIMER_ABSTIME) != 0;
        let cancel_on_set = (flags & TFD_TIMER_CANCEL_ON_SET) != 0;
        let realtime = match self.clock {
            TimerFdClock::Realtime | TimerFdClock::RealtimeAlarm => true,
            _ => false,
        };
        if cancel_on_set && (!absolute || !realtime) {
            return Err(SysErr::Inval);
        }
        let class = self.clock.deadline_class();
        let _ = Self::refresh_due_locked(registry, self.id, self.clock, &mut self.state, now_ns);
        let old_spec = LinuxItimerSpec {
            it_interval: ns_to_timespec(self.state.interval_ns),
            it_value: ns_to_timespec(self.state.expires_ns.saturating_sub(now_ns)),
        };
        if self.state.expires_ns != 0 {
            registry.remove_deadline(class, self.state.expires_ns, self.id);
        }
        self.state.interval_ns = interval_ns;
        self.state.cancel_on_set = cancel_on_set;
        self.state.expires_ns = if value_ns == 0 {
            0
        } else if absolute {
            value_ns
        } else {
            now_ns.saturating_add(value_ns)
        };
        if self.state.expires_ns != 0 {
            if self.state.expires_ns <= now_ns {
                let _ = Self::refresh_due_locked(
                    registry,
                    self.id,
                    self.clock,
                    &mut self.state,
                    now_ns,
                );
            } else {
                registry.insert_deadline(class, self.state.expires_ns, self.id);
            }
        }
        self.bump();
        Ok(old_spec)
    }

    /// Whether expirations are waiting to be read (the caller then wakes readers).
    pub fn readable(&self) -> (r: bool)
        ensures
            r == (self.state().ticks != 0),
    {
        self.state.ticks != 0
    }

    /// `read`: with fewer than 8 bytes of buffer, `InvalidInput`; otherwise the expirations
    /// up to `now_ns` are counted and, when there are any, returned (to be written as 8
    /// native bytes) and reset, and the version moves on; with none, `WouldBlock`.
    pub fn read(&mut self, registry: &mut TimerFdRegistry, now_ns: u64, buffer_len: usize) -> (r:
        Result<u64, FsError>)
        requires
            old(registry).wf(),
        ensures
            final(registry).wf(),
            final(self).id() == old(self).id() && final(self).clock() == old(self).clock(),
            final(registry).next_id() == old(registry).next_id(),
            buffer_len < 8 ==> r == Err::<u64, FsError>(FsError::InvalidInput) && final(self).state()
                == old(self).state() && forall|c: DeadlineClass| #[trigger] final(registry).deadlines(c) == old(registry).deadlines(c),
            buffer_len >= 8 ==> final(registry).deadlines(spec_deadline_class(old(self).clock())) == refresh_moved(
                old(registry).deadlines(spec_deadline_class(old(self).clock())),
                old(self).id(),
                old(self).state(),
                now_ns,
            ),
            forall|c: DeadlineClass| c != spec_deadline_class(old(self).clock()) ==> #[trigger] final(registry).deadlines(c) == old(registry).deadlines(c),
            buffer_len >= 8 && refreshed(old(self).state(), now_ns).ticks == 0 ==> r == Err::<
                u64,
                FsError,
            >(FsError::WouldBlock) && final(self).state() == refreshed(old(self).state(), now_ns),
            buffer_len >= 8 && refreshed(old(self).state(), now_ns).ticks != 0 ==> r == Ok::<
                u64,
                FsError,
            >(refreshed(old(self).state(), now_ns).ticks) && final(self).state() == (
            TimerFdState { ticks: 0, ..refreshed(old(self).state(), now_ns) }),
    {
        if buffer_len < 8 {
            return Err(FsError::InvalidInput);
        }
        let _ = Self::refresh_due_locked(registry, self.id, self.clock, &mut self.state, now_ns);
        if self.state.ticks == 0 {
            return Err(FsError::WouldBlock);
        }
        let ticks = self.state.ticks;
        self.state.ticks = 0;
        self.bump();
        Ok(ticks)
    }

    /// `poll` at `now_ns`: readable when expirations are waiting and reading was asked for.
    pub fn poll(&mut self, registry: &mut TimerFdRegistry, now_ns: u64, want_read: bool) -> (r:
        bool)
        requires
            old(registry).wf(),
        ensures
            final(registry).wf(),
            final(self).state() == refreshed(old(self).state(), now_ns),
            final(self).id() == old(self).id() && final(self).clock() == old(self).clock(),
            final(registry).next_id() == old(registry).next_id(),
            final(registry).deadlines(spec_deadline_class(old(self).clock())) == refresh_moved(
                old(registry).deadlines(spec_deadline_class(old(self).clock())),
                old(self).id(),
                old(self).state(),
                now_ns,
            ),
            forall|c: DeadlineClass| c != spec_deadline_class(old(self).clock()) ==> #[trigger] final(registry).deadlines(c) == old(registry).deadlines(c),
            r == (want_read && refreshed(old(self).state(), now_ns).ticks != 0),
    {
        let _ = Self::refresh_due_locked(registry, self.id, self.clock, &mut self.state, now_ns);
        want_read && self.state.ticks != 0
    }

    /// The timer file is closed: its deadline entry goes.
    pub fn release(&self, registry: &mut TimerFdRegistry)
        requires
            old(registry).wf(),
        ensures
            final(registry).wf(),
            self.state().expires_ns != 0 ==> final(registry).deadlines(
                spec_deadline_class(self.clock()),
            ) == old(registry).deadlines(spec_deadline_class(self.clock())).remove(
                (self.state().expires_ns, self.id()),
            ),
            self.state().expires_ns == 0 ==> final(registry).deadlines(
                spec_deadline_class(self.clock()),
            ) == old(registry).deadlines(spec_deadline_class(self.clock())),
            forall|c: DeadlineClass| c != spec_deadline_class(self.clock()) ==> #[trigger] final(registry).deadlines(c) == old(registry).deadlines(c),
    {
        if self.state.expires_ns != 0 {
            registry.remove_deadline(self.clock.deadline_class(), self.state.expires_ns, self.id);
        }
    }
}

/// After a refresh a timer is never still due: a periodic timer's next expiry lies beyond
/// `now` unless it saturated at `u64::MAX`.
pub proof fn lemma_refresh_settles(s: TimerFdState, now: u64)
    requires
        now < u64::MAX,
    ensures
        !is_due(refreshed(s, now), now),
{
    if is_due(s, now) && s.interval_ns != 0 {
        let x = now - s.expires_ns;
        let i = s.interval_ns as int;
        let p = x / i + 1;
        assert(x < p * i) by (nonlinear_arith)
            requires
                i > 0,
                x >= 0,
                p == x / i + 1,
        ;
        assert(p <= u64::MAX) by (nonlinear_arith)
            requires
                i >= 1,
                0 <= x <= u64::MAX,
                p == x / i + 1,
                x < u64::MAX,
        ;
    }
}

/// Refreshing twice at the same instant changes nothing more.
pub proof fn lemma_refresh_idempotent(s: TimerFdState, now: u64)
    requires
        now < u64::MAX,
    ensures
        refreshed(refreshed(s, now), now) == refreshed(s, now),
{
    lemma_refresh_settles(s, now);
}

/// A timer re-armed to expire after `now` is filed under its expiry, and under no other
/// deadline that its previous expiry had; a refresh that leaves it armed files it under the
/// new expiry.
pub proof fn lemma_armed_timer_is_filed(
    set: Set<(u64, u64)>,
    id: u64,
    current: TimerFdState,
    armed: TimerFdState,
    now: u64,
)
    ensures
        armed.expires_ns > now ==> rearmed_entries(set, id, current, armed, now).contains((armed.expires_ns, id)),
        current.expires_ns != 0 && current.expires_ns != armed.expires_ns && armed.expires_ns > now
            ==> !rearmed_entries(set, id, current, armed, now).contains((current.expires_ns, id)),
        is_due(current, now) && refreshed(current, now).expires_ns != 0 ==> refresh_moved(set, id, current, now).contains(
            (refreshed(current, now).expires_ns, id),
        ),
{
}

/// The entries of a deadline list due by `now`.
pub open spec fn due_entries(s: Set<(u64, u64)>, now: u64) -> Set<(u64, u64)> {
    s.filter(|e: (u64, u64)| e.0 <= now)
}

/// Each timer keeps its ID and clock and is either as it was or refreshed at `now`.
pub open spec fn refreshed_or_kept(before: Seq<TimerFdFile>, after: Seq<TimerFdFile>, now: u64) -> bool {
    &&& after.len() == before.len()
    &&& forall|i: int|
        0 <= i < before.len() ==> {
            &&& #[trigger] after[i].id() == before[i].id()
            &&& after[i].clock() == before[i].clock()
            &&& (after[i].state() == before[i].state() || after[i].state() == refreshed(
                before[i].state(),
                now,
            ))
        }
}

/// Whether one of `timers` has ID `id` and expirations waiting.
pub open spec fn readable_timer(timers: Seq<TimerFdFile>, id: u64) -> bool {
    exists|i: int| 0 <= i < timers.len() && #[trigger] timers[i].id() == id && timers[i].state().ticks != 0
}

/// Moving an entry to an expiry that is not due by `now` adds no entry due by `now`.
proof fn lemma_moved_not_due(set: Set<(u64, u64)>, id: u64, old_expires: u64, new_expires: u64, now: u64)
    requires
        new_expires == 0 || new_expires > now,
    ensures
        due_entries(moved_entry(set, id, old_expires, new_expires), now).subset_of(due_entries(set, now)),
{
}

/// A refresh at `now < u64::MAX` leaves no expiry due by `now`.
proof fn lemma_refreshed_not_due(s: TimerFdState, now: u64)
    requires
        now < u64::MAX,
    ensures
        refreshed(s, now).expires_ns == 0 || refreshed(s, now).expires_ns > now,
{
    lemma_refresh_settles(s, now);
}

/// No two of the timers share an ID.
pub open spec fn distinct_ids(t: Seq<TimerFdFile>) -> bool {
    forall|i: int, j: int|
        #![trigger t[i].id(), t[j].id()]
        0 <= i < t.len() && 0 <= j < t.len() && i != j ==> t[i].id() != t[j].id()
}

/// The deadline list `s` of `class` agrees with `timers`: no two timers share an ID, an
/// entry that names one of them holds that timer's expiry and the timer's clock files
/// under `class`, and each armed timer whose clock files under `class` has its entry.
pub open spec fn filed_consistently(s: Set<(u64, u64)>, class: DeadlineClass, t: Seq<TimerFdFile>) -> bool {
    &&& distinct_ids(t)
    &&& forall|e: (u64, u64), i: int|
        #![trigger s.contains(e), t[i]]
        s.contains(e) && 0 <= i < t.len() && t[i].id() == e.1 ==> spec_deadline_class(t[i].clock()) == class
            && t[i].state().expires_ns == e.0
    &&& forall|i: int|
        #![trigger t[i]]
        0 <= i < t.len() && spec_deadline_class(t[i].clock()) == class && t[i].state().expires_ns != 0
            ==> s.contains((t[i].state().expires_ns, t[i].id()))
}

/// Whether waking `class` at `now` serves timer `t`: its clock files under `class` and it
/// is due.
pub open spec fn serves(t: TimerFdFile, class: DeadlineClass, now: u64) -> bool {
    spec_deadline_class(t.clock()) == class && is_due(t.state(), now)
}

/// Whether the round of deadline `d` serves timer `t`.
pub open spec fn serves_at(t: TimerFdFile, class: DeadlineClass, d: u64, now: u64) -> bool {
    serves(t, class, now) && t.state().expires_ns == d
}

/// A version moved on by one.
pub open spec fn bumped(v: u64) -> u64 {
    if v == u64::MAX {
        0
    } else {
        (v + 1) as u64
    }
}

/// `after` is timer `before` once served at `now`: its expirations counted (a periodic
/// timer re-armed past `now`, a one-shot one disarmed) and its version moved on.
pub open spec fn woken_as(before: TimerFdFile, after: TimerFdFile, now: u64) -> bool {
    &&& after.id() == before.id()
    &&& after.clock() == before.clock()
    &&& after.state() == refreshed(before.state(), now)
    &&& after.spec_version() == bumped(before.spec_version())
}

/// The entry a served timer is filed under afterwards, when it is still armed.
pub open spec fn rearmed_entry(t: TimerFdFile, now: u64) -> (u64, u64) {
    (refreshed(t.state(), now).expires_ns, t.id())
}

/// Whether a served timer is still armed afterwards (a periodic one).
pub open spec fn stays_armed(t: TimerFdFile, now: u64) -> bool {
    refreshed(t.state(), now).expires_ns != 0
}

/// A due timer's state changes when it is served: a one-shot timer is disarmed, a periodic
/// one moves to a later expiry.
proof fn lemma_served_changes(s: TimerFdState, now: u64)
    requires
        is_due(s, now),
        now < u64::MAX,
    ensures
        refreshed(s, now) != s,
        !is_due(refreshed(s, now), now),
        refreshed(s, now).ticks != 0,
        refreshed(s, now).expires_ns == 0 || refreshed(s, now).expires_ns > now,
{
    lemma_refresh_settles(s, now);
}

/// Whether the round of deadline `d` served timer `i` of `t0` by the time the IDs of
/// `taken` were handled.
pub open spec fn served_in(t0: Seq<TimerFdFile>, class: DeadlineClass, d: u64, now: u64, taken: Seq<u64>, i: int) -> bool {
    serves_at(t0[i], class, d, now) && taken.contains(t0[i].id())
}

/// The round of deadline `d` has served, of timers `t0` (now `t`), those whose IDs are in
/// `taken`: each of them is woken (`woken_as`) and the others are as they were; `woken`
/// holds their IDs once each; the deadline list, `l1` before, holds besides the re-armed
/// entries of those timers.
pub open spec fn round_progress(
    l1: Set<(u64, u64)>,
    l: Set<(u64, u64)>,
    t0: Seq<TimerFdFile>,
    t: Seq<TimerFdFile>,
    woken: Seq<u64>,
    class: DeadlineClass,
    d: u64,
    now: u64,
    taken: Seq<u64>,
) -> bool {
    &&& t.len() == t0.len()
    &&& forall|i: int|
        0 <= i < t0.len() ==> if served_in(t0, class, d, now, taken, i) {
            woken_as(t0[i], #[trigger] t[i], now)
        } else {
            t[i] == t0[i]
        }
    &&& woken.no_duplicates()
    &&& forall|id: u64|
        #[trigger] woken.contains(id) <==> exists|i: int|
            0 <= i < t0.len() && served_in(t0, class, d, now, taken, i) && #[trigger] t0[i].id() == id
    &&& forall|e: (u64, u64)|
        #[trigger] l.contains(e) <==> (l1.contains(e) || exists|i: int|
            0 <= i < t0.len() && served_in(t0, class, d, now, taken, i) && stays_armed(t0[i], now) && e
                == #[trigger] rearmed_entry(t0[i], now))
}

/// What the round of deadline `d` of `class` at `now` does, from deadline list `l0` and
/// timers `t0` to list `l` and timers `t`, returning `woken`: the timers it serves
/// (`serves_at`) are woken (`woken_as`) and the others are as they were; `woken` holds
/// the served timers' IDs, once each; the list loses its entries at `d` and gains the
/// re-armed entries of the served timers.
pub open spec fn round_served(
    l0: Set<(u64, u64)>,
    l: Set<(u64, u64)>,
    t0: Seq<TimerFdFile>,
    t: Seq<TimerFdFile>,
    woken: Seq<u64>,
    class: DeadlineClass,
    d: u64,
    now: u64,
) -> bool {
    &&& t.len() == t0.len()
    &&& forall|i: int|
        0 <= i < t0.len() ==> if serves_at(t0[i], class, d, now) {
            woken_as(t0[i], #[trigger] t[i], now)
        } else {
            t[i] == t0[i]
        }
    &&& woken.no_duplicates()
    &&& forall|id: u64|
        #[trigger] woken.contains(id) <==> exists|i: int|
            0 <= i < t0.len() && serves_at(t0[i], class, d, now) && #[trigger] t0[i].id() == id
    &&& forall|e: (u64, u64)|
        #[trigger] l.contains(e) <==> ((l0.contains(e) && e.0 != d) || exists|i: int|
            0 <= i < t0.len() && serves_at(t0[i], class, d, now) && stays_armed(t0[i], now) && e
                == #[trigger] rearmed_entry(t0[i], now))
}

/// Each timer of a round keeps its ID.
proof fn lemma_progress_ids(
    l1: Set<(u64, u64)>,
    l: Set<(u64, u64)>,
    t0: Seq<TimerFdFile>,
    t: Seq<TimerFdFile>,
    woken: Seq<u64>,
    class: DeadlineClass,
    d: u64,
    now: u64,
    taken: Seq<u64>,
)
    requires
        round_progress(l1, l, t0, t, woken, class, d, now, taken),
    ensures
        forall|i: int| 0 <= i < t0.len() ==> #[trigger] t[i].id() == t0[i].id() && t[i].clock() == t0[i].clock(),
{
    assert forall|i: int| 0 <= i < t0.len() implies #[trigger] t[i].id() == t0[i].id() && t[i].clock() == t0[i].clock() by {
        if served_in(t0, class, d, now, taken, i) {
            assert(woken_as(t0[i], t[i], now));
        } else {
            assert(t[i] == t0[i]);
        }
    }
}

/// An ID of the round that names none of the timers changes nothing.
proof fn lemma_round_skip(
    l1: Set<(u64, u64)>,
    l: Set<(u64, u64)>,
    t0: Seq<TimerFdFile>,
    t: Seq<TimerFdFile>,
    woken: Seq<u64>,
    class: DeadlineClass,
    d: u64,
    now: u64,
    ids: Seq<u64>,
    j: int,
)
    requires
        0 <= j < ids.len(),
        round_progress(l1, l, t0, t, woken, class, d, now, ids.take(j)),
        forall|i: int| 0 <= i < t.len() ==> #[trigger] t[i].id() != ids[j],
    ensures
        round_progress(l1, l, t0, t, woken, class, d, now, ids.take(j + 1)),
{
    let pre = ids.take(j);
    let pre2 = ids.take(j + 1);
    assert(pre2 =~= pre.push(ids[j]));
    lemma_progress_ids(l1, l, t0, t, woken, class, d, now, pre);
    assert forall|i: int| 0 <= i < t0.len() implies served_in(t0, class, d, now, pre2, i) == served_in(
        t0,
        class,
        d,
        now,
        pre,
        i,
    ) by {
        assert(t[i].id() == t0[i].id());
    }
    assert forall|i: int|
        0 <= i < t0.len() implies if served_in(t0, class, d, now, pre2, i) {
        woken_as(t0[i], #[trigger] t[i], now)
    } else {
        t[i] == t0[i]
    } by {
        assert(served_in(t0, class, d, now, pre2, i) == served_in(t0, class, d, now, pre, i));
    }
    assert forall|id: u64| #[trigger] woken.contains(id) <==> exists|i: int|
        0 <= i < t0.len() && served_in(t0, class, d, now, pre2, i) && #[trigger] t0[i].id() == id by {
        if woken.contains(id) {
            let i = choose|i: int| 0 <= i < t0.len() && served_in(t0, class, d, now, pre, i) && #[trigger] t0[i].id() == id;
            assert(served_in(t0, class, d, now, pre2, i) == served_in(t0, class, d, now, pre, i));
        }
        if exists|i: int| 0 <= i < t0.len() && served_in(t0, class, d, now, pre2, i) && #[trigger] t0[i].id() == id {
            let i = choose|i: int| 0 <= i < t0.len() && served_in(t0, class, d, now, pre2, i) && #[trigger] t0[i].id() == id;
            assert(served_in(t0, class, d, now, pre2, i) == served_in(t0, class, d, now, pre, i));
        }
    }
    assert forall|e: (u64, u64)| #[trigger] l.contains(e) <==> (l1.contains(e) || exists|i: int|
        0 <= i < t0.len() && served_in(t0, class, d, now, pre2, i) && stays_armed(t0[i], now) && e
            == #[trigger] rearmed_entry(t0[i], now)) by {
        if exists|i: int| 0 <= i < t0.len() && served_in(t0, class, d, now, pre, i) && stays_armed(t0[i], now) && e
            == #[trigger] rearmed_entry(t0[i], now) {
            let i = choose|i: int| 0 <= i < t0.len() && served_in(t0, class, d, now, pre, i) && stays_armed(t0[i], now) && e
                == #[trigger] rearmed_entry(t0[i], now);
            assert(served_in(t0, class, d, now, pre2, i) == served_in(t0, class, d, now, pre, i));
        }
        if exists|i: int| 0 <= i < t0.len() && served_in(t0, class, d, now, pre2, i) && stays_armed(t0[i], now) && e
            == #[trigger] rearmed_entry(t0[i], now) {
            let i = choose|i: int| 0 <= i < t0.len() && served_in(t0, class, d, now, pre2, i) && stays_armed(t0[i], now) && e
                == #[trigger] rearmed_entry(t0[i], now);
            assert(served_in(t0, class, d, now, pre2, i) == served_in(t0, class, d, now, pre, i));
        }
    }
}

/// Handling an ID of the round that names timer `k`: the timer is served when due (at
/// the round's deadline), and the round's progress moves on by that ID.
proof fn lemma_round_serve(
    l0: Set<(u64, u64)>,
    l1: Set<(u64, u64)>,
    l_before: Set<(u64, u64)>,
    l_after: Set<(u64, u64)>,
    t0: Seq<TimerFdFile>,
    t_before: Seq<TimerFdFile>,
    t_after: Seq<TimerFdFile>,
    w_before: Seq<u64>,
    w_after: Seq<u64>,
    class: DeadlineClass,
    d: u64,
    now: u64,
    ids: Seq<u64>,
    j: int,
    k: int,
    changed: bool,
)
    requires
        now < u64::MAX,
        filed_consistently(l0, class, t0),
        d <= now,
        l1 == l0.filter(|e: (u64, u64)| e.0 != d),
        ids.to_set() == ids_at(l0, d),
        forall|a: int, b: int| 0 <= a < b < ids.len() ==> ids[a] < ids[b],
        0 <= j < ids.len(),
        0 <= k < t_before.len(),
        round_progress(l1, l_before, t0, t_before, w_before, class, d, now, ids.take(j)),
        t_before[k].id() == ids[j],
        changed == is_due(t_before[k].state(), now),
        t_after.len() == t_before.len(),
        forall|i: int| 0 <= i < t_before.len() && i != k ==> #[trigger] t_after[i] == t_before[i],
        t_after[k].id() == t_before[k].id(),
        t_after[k].clock() == t_before[k].clock(),
        t_after[k].state() == refreshed(t_before[k].state(), now),
        changed && t_after[k].state().ticks != 0 ==> t_after[k].spec_version() == bumped(
            t_before[k].spec_version(),
        ) && w_after == w_before.push(ids[j]),
        !(changed && t_after[k].state().ticks != 0) ==> t_after[k].spec_version()
            == t_before[k].spec_version() && w_after == w_before,
        spec_deadline_class(t_before[k].clock()) == class ==> (changed ==> l_after == moved_entry(
            l_before,
            t_before[k].id(),
            t_before[k].state().expires_ns,
            t_after[k].state().expires_ns,
        )) && (!changed ==> l_after == l_before),
    ensures
        spec_deadline_class(t_before[k].clock()) == class,
        round_progress(l1, l_after, t0, t_after, w_after, class, d, now, ids.take(j + 1)),
{
    let id = ids[j];
    let pre = ids.take(j);
    let pre2 = ids.take(j + 1);
    assert(pre2 =~= pre.push(id));
    assert(ids.contains(id));
    assert(ids.to_set().contains(id));
    assert(l0.contains((d, id)));
    lemma_progress_ids(l1, l_before, t0, t_before, w_before, class, d, now, pre);
    assert(t0[k].id() == id);
    assert(spec_deadline_class(t0[k].clock()) == class && t0[k].state().expires_ns == d);
    assert(!pre.contains(id)) by {
        if pre.contains(id) {
            let q = choose|q: int| 0 <= q < pre.len() && pre[q] == id;
            assert(ids[q] < ids[j]);
        }
    }
    assert(!served_in(t0, class, d, now, pre, k));
    assert(t_before[k] == t0[k]);
    if changed {
        lemma_served_changes(t0[k].state(), now);
    }
    assert(t_after[k] == t0[k] || (changed && woken_as(t0[k], t_after[k], now)));
    assert(pre2[j] == id);
    assert(pre2.contains(id));
    assert(served_in(t0, class, d, now, pre2, k) == changed);
    assert forall|i: int| 0 <= i < t0.len() && i != k implies served_in(t0, class, d, now, pre2, i) == served_in(
        t0,
        class,
        d,
        now,
        pre,
        i,
    ) by {
        assert(t0[i].id() != t0[k].id());
    }
    assert forall|i: int|
        0 <= i < t0.len() implies if served_in(t0, class, d, now, pre2, i) {
        woken_as(t0[i], #[trigger] t_after[i], now)
    } else {
        t_after[i] == t0[i]
    } by {
        if i != k {
            assert(t_after[i] == t_before[i]);
        }
    }
    if changed {
        assert(t_after[k].state().ticks != 0);
        assert(w_after == w_before.push(id));
        assert(w_after[w_before.len() as int] == id);
    } else {
        assert(w_after == w_before);
    }
    assert forall|id2: u64| #[trigger] w_after.contains(id2) <==> exists|i: int|
        0 <= i < t0.len() && served_in(t0, class, d, now, pre2, i) && #[trigger] t0[i].id() == id2 by {
        if w_after.contains(id2) && !w_before.contains(id2) {
            assert(changed);
            let q = choose|q: int| 0 <= q < w_after.len() && w_after[q] == id2;
            if q < w_before.len() {
                assert(w_before[q] == id2);
            }
            assert(id2 == id);
        }
        if w_before.contains(id2) {
            let q = choose|q: int| 0 <= q < w_before.len() && w_before[q] == id2;
            if changed {
                assert(w_after[q] == id2);
            }
            assert(w_after.contains(id2));
            let i = choose|i: int| 0 <= i < t0.len() && served_in(t0, class, d, now, pre, i) && #[trigger] t0[i].id() == id2;
            assert(i != k);
        }
        if changed && id2 == id {
            assert(served_in(t0, class, d, now, pre2, k) && t0[k].id() == id2);
        }
        if exists|i: int| 0 <= i < t0.len() && served_in(t0, class, d, now, pre2, i) && #[trigger] t0[i].id() == id2 {
            let i = choose|i: int| 0 <= i < t0.len() && served_in(t0, class, d, now, pre2, i) && #[trigger] t0[i].id() == id2;
            if i != k {
                assert(served_in(t0, class, d, now, pre, i));
                assert(w_before.contains(id2));
            } else {
                assert(id2 == id);
            }
        }
    }
    if changed {
        assert(!w_before.contains(id)) by {
            if w_before.contains(id) {
                let i = choose|i: int| 0 <= i < t0.len() && served_in(t0, class, d, now, pre, i) && #[trigger] t0[i].id() == id;
                assert(i == k);
            }
        }
    }
    assert(w_after.no_duplicates()) by {
        if changed {
            assert forall|a: int, b: int| 0 <= a < b < w_after.len() implies w_after[a] != w_after[b] by {
                if b == w_after.len() - 1 {
                    assert(w_before.contains(w_after[a]));
                }
            }
        }
    }
    assert(!l_before.contains((d, id))) by {
        if l_before.contains((d, id)) {
            if !l1.contains((d, id)) {
                let i = choose|i: int|
                    0 <= i < t0.len() && served_in(t0, class, d, now, pre, i) && stays_armed(t0[i], now) && (d, id)
                        == #[trigger] rearmed_entry(t0[i], now);
                lemma_served_changes(t0[i].state(), now);
            }
        }
    }
    assert forall|e: (u64, u64)| #[trigger] l_after.contains(e) <==> (l1.contains(e) || exists|i: int|
        0 <= i < t0.len() && served_in(t0, class, d, now, pre2, i) && stays_armed(t0[i], now) && e
            == #[trigger] rearmed_entry(t0[i], now)) by {
        if exists|i: int| 0 <= i < t0.len() && served_in(t0, class, d, now, pre, i) && stays_armed(t0[i], now) && e
            == #[trigger] rearmed_entry(t0[i], now) {
            let i = choose|i: int| 0 <= i < t0.len() && served_in(t0, class, d, now, pre, i) && stays_armed(t0[i], now) && e
                == #[trigger] rearmed_entry(t0[i], now);
            assert(i != k);
            assert(served_in(t0, class, d, now, pre2, i));
            lemma_served_changes(t0[i].state(), now);
        }
        if exists|i: int| 0 <= i < t0.len() && served_in(t0, class, d, now, pre2, i) && stays_armed(t0[i], now) && e
            == #[trigger] rearmed_entry(t0[i], now) {
            let i = choose|i: int| 0 <= i < t0.len() && served_in(t0, class, d, now, pre2, i) && stays_armed(t0[i], now) && e
                == #[trigger] rearmed_entry(t0[i], now);
            if i != k {
                assert(served_in(t0, class, d, now, pre, i));
                lemma_served_changes(t0[i].state(), now);
            }
        }
        if changed && stays_armed(t0[k], now) && e == rearmed_entry(t0[k], now) {
            assert(served_in(t0, class, d, now, pre2, k));
        }
        if l1.contains(e) {
            assert(e.0 != d);
        }
    }
}

/// A round that has handled all its IDs has served exactly the timers due at its
/// deadline, and leaves the list agreeing with the timers.
proof fn lemma_round_done(
    l0: Set<(u64, u64)>,
    l1: Set<(u64, u64)>,
    l: Set<(u64, u64)>,
    t0: Seq<TimerFdFile>,
    t: Seq<TimerFdFile>,
    woken: Seq<u64>,
    class: DeadlineClass,
    d: u64,
    now: u64,
    ids: Seq<u64>,
)
    requires
        now < u64::MAX,
        filed_consistently(l0, class, t0),
        d <= now,
        l1 == l0.filter(|e: (u64, u64)| e.0 != d),
        ids.to_set() == ids_at(l0, d),
        round_progress(l1, l, t0, t, woken, class, d, now, ids),
    ensures
        round_served(l0, l, t0, t, woken, class, d, now),
        filed_consistently(l, class, t),
{
    lemma_progress_ids(l1, l, t0, t, woken, class, d, now, ids);
    assert forall|i: int| 0 <= i < t0.len() implies served_in(t0, class, d, now, ids, i) == serves_at(
        t0[i],
        class,
        d,
        now,
    ) by {
        if serves_at(t0[i], class, d, now) {
            assert(l0.contains((t0[i].state().expires_ns, t0[i].id())));
            assert(ids.to_set().contains(t0[i].id()));
        }
    }
    assert forall|i: int|
        0 <= i < t0.len() implies if serves_at(t0[i], class, d, now) {
        woken_as(t0[i], #[trigger] t[i], now)
    } else {
        t[i] == t0[i]
    } by {
        assert(served_in(t0, class, d, now, ids, i) == serves_at(t0[i], class, d, now));
    }
    assert forall|id: u64| #[trigger] woken.contains(id) <==> exists|i: int|
        0 <= i < t0.len() && serves_at(t0[i], class, d, now) && #[trigger] t0[i].id() == id by {
        if woken.contains(id) {
            let i = choose|i: int| 0 <= i < t0.len() && served_in(t0, class, d, now, ids, i) && #[trigger] t0[i].id() == id;
        }
        if exists|i: int| 0 <= i < t0.len() && serves_at(t0[i], class, d, now) && #[trigger] t0[i].id() == id {
            let i = choose|i: int| 0 <= i < t0.len() && serves_at(t0[i], class, d, now) && #[trigger] t0[i].id() == id;
            assert(served_in(t0, class, d, now, ids, i) == serves_at(t0[i], class, d, now));
        }
    }
    assert forall|e: (u64, u64)| #[trigger] l.contains(e) <==> ((l0.contains(e) && e.0 != d) || exists|i: int|
        0 <= i < t0.len() && serves_at(t0[i], class, d, now) && stays_armed(t0[i], now) && e
            == #[trigger] rearmed_entry(t0[i], now)) by {
        if exists|i: int| 0 <= i < t0.len() && served_in(t0, class, d, now, ids, i) && stays_armed(t0[i], now) && e
            == #[trigger] rearmed_entry(t0[i], now) {
            let i = choose|i: int| 0 <= i < t0.len() && served_in(t0, class, d, now, ids, i) && stays_armed(t0[i], now) && e
                == #[trigger] rearmed_entry(t0[i], now);
        }
        if exists|i: int| 0 <= i < t0.len() && serves_at(t0[i], class, d, now) && stays_armed(t0[i], now) && e
            == #[trigger] rearmed_entry(t0[i], now) {
            let i = choose|i: int| 0 <= i < t0.len() && serves_at(t0[i], class, d, now) && stays_armed(t0[i], now) && e
                == #[trigger] rearmed_entry(t0[i], now);
            assert(served_in(t0, class, d, now, ids, i) == serves_at(t0[i], class, d, now));
        }
    }
    assert forall|i: int, j: int|
        #![trigger t[i].id(), t[j].id()]
        0 <= i < t.len() && 0 <= j < t.len() && i != j implies t[i].id() != t[j].id() by {
        assert(t0[i].id() != t0[j].id());
    }
    assert forall|e: (u64, u64), i: int|
        #![trigger l.contains(e), t[i]]
        l.contains(e) && 0 <= i < t.len() && t[i].id() == e.1 implies spec_deadline_class(t[i].clock()) == class
            && t[i].state().expires_ns == e.0 by {
        assert(served_in(t0, class, d, now, ids, i) == serves_at(t0[i], class, d, now));
        if l1.contains(e) {
            assert(l0.contains(e));
        } else {
            let i2 = choose|i2: int| 0 <= i2 < t0.len() && served_in(t0, class, d, now, ids, i2) && stays_armed(t0[i2], now) && e
                == #[trigger] rearmed_entry(t0[i2], now);
            if i2 != i {
                assert(t0[i].id() != t0[i2].id());
            }
        }
    }
    assert forall|i: int|
        #![trigger t[i]]
        0 <= i < t.len() && spec_deadline_class(t[i].clock()) == class && t[i].state().expires_ns != 0
            implies l.contains((t[i].state().expires_ns, t[i].id())) by {
        assert(served_in(t0, class, d, now, ids, i) == serves_at(t0[i], class, d, now));
        if serves_at(t0[i], class, d, now) {
            assert((t[i].state().expires_ns, t[i].id()) == rearmed_entry(t0[i], now));
        } else {
            assert(l0.contains((t0[i].state().expires_ns, t0[i].id())));
        }
    }
}

/// What waking `class` at `now` does, from deadline list `l0` and timers `t0` to list `l`
/// and timers `t`, returning `woken`: every timer it serves (`serves`) is woken
/// (`woken_as`) and the others are as they were; `woken` holds the served timers' IDs,
/// once each; the list keeps its entries after `now` and gains the re-armed entries of the
/// served timers.
pub open spec fn wake_served(
    l0: Set<(u64, u64)>,
    l: Set<(u64, u64)>,
    t0: Seq<TimerFdFile>,
    t: Seq<TimerFdFile>,
    woken: Seq<u64>,
    class: DeadlineClass,
    now: u64,
) -> bool {
    &&& t.len() == t0.len()
    &&& forall|i: int|
        0 <= i < t0.len() ==> if serves(t0[i], class, now) {
            woken_as(t0[i], #[trigger] t[i], now)
        } else {
            t[i] == t0[i]
        }
    &&& woken.no_duplicates()
    &&& forall|id: u64|
        #[trigger] woken.contains(id) <==> exists|i: int|
            0 <= i < t0.len() && serves(t0[i], class, now) && #[trigger] t0[i].id() == id
    &&& forall|e: (u64, u64)|
        #[trigger] l.contains(e) <==> ((l0.contains(e) && e.0 > now) || exists|i: int|
            0 <= i < t0.len() && serves(t0[i], class, now) && stays_armed(t0[i], now) && e
                == #[trigger] rearmed_entry(t0[i], now))
}

/// How far waking `class` at `now` has come: each timer it serves is either still as it
/// was or woken; `woken` holds the woken ones' IDs, once each; the list holds, after
/// `now`, the original entries and the re-armed entries of the woken timers, and up to
/// `now` only original entries; and it agrees with the timers.
pub open spec fn wake_progress(
    l0: Set<(u64, u64)>,
    l: Set<(u64, u64)>,
    t0: Seq<TimerFdFile>,
    t: Seq<TimerFdFile>,
    woken: Seq<u64>,
    class: DeadlineClass,
    now: u64,
) -> bool {
    &&& t.len() == t0.len()
    &&& forall|i: int|
        0 <= i < t0.len() ==> if serves(t0[i], class, now) {
            #[trigger] t[i] == t0[i] || woken_as(t0[i], t[i], now)
        } else {
            t[i] == t0[i]
        }
    &&& woken.no_duplicates()
    &&& forall|id: u64|
        #[trigger] woken.contains(id) <==> exists|i: int|
            0 <= i < t0.len() && serves(t0[i], class, now) && woken_as(t0[i], t[i], now) && #[trigger] t0[i].id()
                == id
    &&& forall|e: (u64, u64)|
        e.0 > now ==> (#[trigger] l.contains(e) <==> (l0.contains(e) || exists|i: int|
            0 <= i < t0.len() && serves(t0[i], class, now) && woken_as(t0[i], t[i], now) && stays_armed(
                t0[i],
                now,
            ) && e == #[trigger] rearmed_entry(t0[i], now)))
    &&& forall|e: (u64, u64)| #[trigger] l.contains(e) && e.0 <= now ==> l0.contains(e)
    &&& filed_consistently(l, class, t)
}

/// A served timer is not woken until it is served.
proof fn lemma_not_woken_yet(t0: TimerFdFile, class: DeadlineClass, now: u64)
    requires
        serves(t0, class, now),
        now < u64::MAX,
    ensures
        !woken_as(t0, t0, now),
{
    lemma_served_changes(t0.state(), now);
}

/// Waking starts with nothing done.
proof fn lemma_wake_start(l0: Set<(u64, u64)>, t0: Seq<TimerFdFile>, class: DeadlineClass, now: u64)
    requires
        filed_consistently(l0, class, t0),
        now < u64::MAX,
    ensures
        wake_progress(l0, l0, t0, t0, Seq::empty(), class, now),
{
    assert forall|i: int| 0 <= i < t0.len() && serves(t0[i], class, now) implies !woken_as(t0[i], t0[i], now) by {
        lemma_not_woken_yet(t0[i], class, now);
    }
}

/// A round of deadline `d` moves waking on: the timers it serves are served ones that were
/// not yet woken.
proof fn lemma_wake_step(
    l0: Set<(u64, u64)>,
    l: Set<(u64, u64)>,
    l2: Set<(u64, u64)>,
    t0: Seq<TimerFdFile>,
    t: Seq<TimerFdFile>,
    t2: Seq<TimerFdFile>,
    woken: Seq<u64>,
    ids: Seq<u64>,
    class: DeadlineClass,
    d: u64,
    now: u64,
)
    requires
        now < u64::MAX,
        d <= now,
        wake_progress(l0, l, t0, t, woken, class, now),
        round_served(l, l2, t, t2, ids, class, d, now),
        filed_consistently(l2, class, t2),
    ensures
        wake_progress(l0, l2, t0, t2, woken + ids, class, now),
{
    assert forall|i: int| 0 <= i < t0.len() implies #[trigger] t[i].id() == t0[i].id() && t[i].clock() == t0[i].clock() by {
        if serves(t0[i], class, now) {
            if t[i] != t0[i] {
                assert(woken_as(t0[i], t[i], now));
            }
        } else {
            assert(t[i] == t0[i]);
        }
    }
    // a timer the round serves is served and not yet woken
    assert forall|i: int| 0 <= i < t0.len() && serves_at(t[i], class, d, now) implies #[trigger] t[i] == t0[i]
        && serves(t0[i], class, now) by {
        if serves(t0[i], class, now) {
            if t[i] != t0[i] {
                assert(woken_as(t0[i], t[i], now));
                lemma_served_changes(t0[i].state(), now);
            }
        } else {
            assert(t[i] == t0[i]);
        }
    }
    // woken status after the round
    assert forall|i: int| 0 <= i < t0.len() && serves(t0[i], class, now) implies (woken_as(t0[i], #[trigger] t2[i], now)
        <==> (woken_as(t0[i], t[i], now) || serves_at(t[i], class, d, now))) by {
        lemma_served_changes(t0[i].state(), now);
        if serves_at(t[i], class, d, now) {
            assert(t[i] == t0[i]);
            assert(woken_as(t[i], t2[i], now));
        } else {
            assert(t2[i] == t[i]);
        }
    }
    assert forall|i: int|
        0 <= i < t0.len() implies if serves(t0[i], class, now) {
        #[trigger] t2[i] == t0[i] || woken_as(t0[i], t2[i], now)
    } else {
        t2[i] == t0[i]
    } by {
        if serves_at(t[i], class, d, now) {
            assert(t[i] == t0[i] && serves(t0[i], class, now));
            assert(woken_as(t[i], t2[i], now));
        } else {
            assert(t2[i] == t[i]);
        }
    }
    let w2 = woken + ids;
    assert forall|id: u64| #[trigger] w2.contains(id) <==> exists|i: int|
        0 <= i < t0.len() && serves(t0[i], class, now) && woken_as(t0[i], t2[i], now) && #[trigger] t0[i].id() == id by {
        if w2.contains(id) {
            let q = choose|q: int| 0 <= q < w2.len() && w2[q] == id;
            if q < woken.len() {
                assert(woken[q] == id);
                assert(woken.contains(id));
                let i = choose|i: int| 0 <= i < t0.len() && serves(t0[i], class, now) && woken_as(t0[i], t[i], now) && #[trigger] t0[i].id() == id;
                assert(woken_as(t0[i], t2[i], now));
            } else {
                assert(ids[q - woken.len()] == id);
                assert(ids.contains(id));
                let i = choose|i: int| 0 <= i < t.len() && serves_at(t[i], class, d, now) && #[trigger] t[i].id() == id;
                assert(t[i] == t0[i] && serves(t0[i], class, now));
                assert(woken_as(t0[i], t2[i], now));
            }
        }
        if exists|i: int| 0 <= i < t0.len() && serves(t0[i], class, now) && woken_as(t0[i], t2[i], now) && #[trigger] t0[i].id() == id {
            let i = choose|i: int| 0 <= i < t0.len() && serves(t0[i], class, now) && woken_as(t0[i], t2[i], now) && #[trigger] t0[i].id() == id;
            if woken_as(t0[i], t[i], now) {
                assert(woken.contains(id));
                let q = choose|q: int| 0 <= q < woken.len() && woken[q] == id;
                assert(w2[q] == id);
            } else {
                assert(serves_at(t[i], class, d, now));
                assert(t[i].id() == id);
                assert(ids.contains(id));
                let q = choose|q: int| 0 <= q < ids.len() && ids[q] == id;
                assert(w2[woken.len() + q] == id);
            }
        }
    }
    assert(w2.no_duplicates()) by {
        assert forall|a: int, b: int| 0 <= a < b < w2.len() implies w2[a] != w2[b] by {
            if a < woken.len() && b >= woken.len() {
                let x = w2[a];
                assert(woken[a] == x);
                assert(woken.contains(x));
                assert(ids[b - woken.len()] == w2[b]);
                if x == w2[b] {
                    assert(ids.contains(x));
                    let i = choose|i: int| 0 <= i < t0.len() && serves(t0[i], class, now) && woken_as(t0[i], t[i], now) && #[trigger] t0[i].id() == x;
                    let i2 = choose|i2: int| 0 <= i2 < t.len() && serves_at(t[i2], class, d, now) && #[trigger] t[i2].id() == x;
                    assert(t[i2] == t0[i2]);
                    if i == i2 {
                        lemma_not_woken_yet(t0[i], class, now);
                    } else {
                        assert(t0[i].id() != t0[i2].id());
                    }
                }
            } else if a >= woken.len() {
                assert(w2[a] == ids[a - woken.len()]);
                assert(w2[b] == ids[b - woken.len()]);
            } else {
                assert(w2[a] == woken[a] && w2[b] == woken[b]);
            }
        }
    }
    assert forall|e: (u64, u64)| e.0 > now implies (#[trigger] l2.contains(e) <==> (l0.contains(e) || exists|i: int|
        0 <= i < t0.len() && serves(t0[i], class, now) && woken_as(t0[i], t2[i], now) && stays_armed(t0[i], now) && e
            == #[trigger] rearmed_entry(t0[i], now))) by {
        if exists|i: int| 0 <= i < t.len() && serves_at(t[i], class, d, now) && stays_armed(t[i], now) && e
            == #[trigger] rearmed_entry(t[i], now) {
            let i = choose|i: int| 0 <= i < t.len() && serves_at(t[i], class, d, now) && stays_armed(t[i], now) && e
                == #[trigger] rearmed_entry(t[i], now);
            assert(t[i] == t0[i] && serves(t0[i], class, now));
        }
        if exists|i: int| 0 <= i < t0.len() && serves(t0[i], class, now) && woken_as(t0[i], t2[i], now) && stays_armed(t0[i], now) && e
            == #[trigger] rearmed_entry(t0[i], now) {
            let i = choose|i: int| 0 <= i < t0.len() && serves(t0[i], class, now) && woken_as(t0[i], t2[i], now) && stays_armed(t0[i], now) && e
                == #[trigger] rearmed_entry(t0[i], now);
            if !woken_as(t0[i], t[i], now) {
                assert(serves_at(t[i], class, d, now));
                assert(t[i] == t0[i]);
                assert(e == rearmed_entry(t[i], now));
            }
        }
        if exists|i: int| 0 <= i < t0.len() && serves(t0[i], class, now) && woken_as(t0[i], t[i], now) && stays_armed(t0[i], now) && e
            == #[trigger] rearmed_entry(t0[i], now) {
            let i = choose|i: int| 0 <= i < t0.len() && serves(t0[i], class, now) && woken_as(t0[i], t[i], now) && stays_armed(t0[i], now) && e
                == #[trigger] rearmed_entry(t0[i], now);
            assert(woken_as(t0[i], t2[i], now));
        }
    }
    assert forall|e: (u64, u64)| #[trigger] l2.contains(e) && e.0 <= now implies l0.contains(e) by {
        if !(l.contains(e) && e.0 != d) {
            let i = choose|i: int| 0 <= i < t.len() && serves_at(t[i], class, d, now) && stays_armed(t[i], now) && e
                == #[trigger] rearmed_entry(t[i], now);
            lemma_served_changes(t[i].state(), now);
        }
    }
}

/// Once no entry is due, waking has served every timer it serves.
proof fn lemma_wake_done(
    l0: Set<(u64, u64)>,
    l: Set<(u64, u64)>,
    t0: Seq<TimerFdFile>,
    t: Seq<TimerFdFile>,
    woken: Seq<u64>,
    class: DeadlineClass,
    now: u64,
)
    requires
        now < u64::MAX,
        wake_progress(l0, l, t0, t, woken, class, now),
        forall|e: (u64, u64)| #[trigger] l.contains(e) ==> e.0 > now,
    ensures
        wake_served(l0, l, t0, t, woken, class, now),
        filed_consistently(l, class, t),
{
    assert forall|i: int| 0 <= i < t0.len() && serves(t0[i], class, now) implies woken_as(t0[i], #[trigger] t[i], now) by {
        if t[i] == t0[i] {
            assert(l.contains((t[i].state().expires_ns, t[i].id())));
        }
    }
    assert forall|id: u64| #[trigger] woken.contains(id) <==> exists|i: int|
        0 <= i < t0.len() && serves(t0[i], class, now) && #[trigger] t0[i].id() == id by {
        if exists|i: int| 0 <= i < t0.len() && serves(t0[i], class, now) && #[trigger] t0[i].id() == id {
            let i = choose|i: int| 0 <= i < t0.len() && serves(t0[i], class, now) && #[trigger] t0[i].id() == id;
            assert(woken_as(t0[i], t[i], now));
        }
    }
    assert forall|e: (u64, u64)| #[trigger] l.contains(e) <==> ((l0.contains(e) && e.0 > now) || exists|i: int|
        0 <= i < t0.len() && serves(t0[i], class, now) && stays_armed(t0[i], now) && e
            == #[trigger] rearmed_entry(t0[i], now)) by {
        if exists|i: int| 0 <= i < t0.len() && serves(t0[i], class, now) && stays_armed(t0[i], now) && e
            == #[trigger] rearmed_entry(t0[i], now) {
            let i = choose|i: int| 0 <= i < t0.len() && serves(t0[i], class, now) && stays_armed(t0[i], now) && e
                == #[trigger] rearmed_entry(t0[i], now);
            assert(woken_as(t0[i], t[i], now));
            lemma_served_changes(t0[i].state(), now);
        }
    }
}

/// Where timer `id` is among `timers`, if it is.
fn timer_index(timers: &Vec<TimerFdFile>, id: u64) -> (r: Option<usize>)
    ensures
        r matches Some(k) ==> k < timers@.len() && timers@[k as int].id() == id,
        r is None ==> forall|i: int| 0 <= i < timers@.len() ==> #[trigger] timers@[i].id() != id,
{
    let mut k: usize = 0;
    while k < timers.len()
        invariant
            k <= timers@.len(),
            forall|i: int| 0 <= i < k ==> #[trigger] timers@[i].id() != id,
        decreases timers@.len() - k,
    {
        if timers[k].id == id {
            return Some(k);
        }
        k = k + 1;
    }
    None
}

/// One round of waking timers of `class` at `now_ns`: the timers due at the earliest
/// deadline, if it has passed, are taken from the registry (`take_due`); each of them
/// found among `timers` is refreshed, and those that thereby gained expirations to read
/// move their version on and are returned, for their readers to be woken. `None` when no
/// deadline of `class` has passed; then nothing changes.
pub fn wake_due_timers(
    registry: &mut TimerFdRegistry,
    class: DeadlineClass,
    now_ns: u64,
    timers: &mut Vec<TimerFdFile>,
) -> (r: Option<Vec<u64>>)
    requires
        old(registry).wf(),
        now_ns < u64::MAX,
    ensures
        final(registry).wf(),
        final(registry).next_id() == old(registry).next_id(),
        refreshed_or_kept(old(timers)@, final(timers)@, now_ns),
        !due_by(first_deadline(old(registry).deadlines(class)), now_ns) ==> r is None && final(timers)@
            == old(timers)@ && forall|c: DeadlineClass| #[trigger] final(registry).deadlines(c) == old(
            registry,
        ).deadlines(c),
        due_by(first_deadline(old(registry).deadlines(class)), now_ns) ==> r is Some,
        forall|c: DeadlineClass| #![trigger final(registry).deadlines(c)] due_entries(final(registry).deadlines(c), now_ns).subset_of(
            due_entries(old(registry).deadlines(c), now_ns),
        ),
        r is Some ==> due_entries(final(registry).deadlines(class), now_ns).len() < due_entries(
            old(registry).deadlines(class),
            now_ns,
        ).len(),
        r matches Some(ids) ==> forall|j: int| 0 <= j < ids@.len() ==> readable_timer(final(timers)@, #[trigger] ids@[j]),
        forall|id: u64| #[trigger] readable_timer(old(timers)@, id) ==> readable_timer(final(timers)@, id),
        filed_consistently(old(registry).deadlines(class), class, old(timers)@) && due_by(
            first_deadline(old(registry).deadlines(class)),
            now_ns,
        ) ==> round_served(
            old(registry).deadlines(class),
            final(registry).deadlines(class),
            old(timers)@,
            final(timers)@,
            r->0@,
            class,
            first_deadline(old(registry).deadlines(class))->0,
            now_ns,
        ) && filed_consistently(final(registry).deadlines(class), class, final(timers)@) && forall|c: DeadlineClass|
            c != class ==> #[trigger] final(registry).deadlines(c) == old(registry).deadlines(c),
{
    let ghost reg0 = *registry;
    let ghost timers0 = timers@;
    let ghost cons = filed_consistently(reg0.deadlines(class), class, timers0);
    let ids = match registry.take_due(class, now_ns) {
        None => return None,
        Some(ids) => ids,
    };
    let ghost reg1 = *registry;
    proof {
        let s = reg0.deadlines(class);
        let d = first_deadline(s)->0;
        assert(is_earliest(s, d));
        let id0 = choose|id: u64| s.contains((d, id));
        reg0.lemma_deadlines_finite(class);
        let f0 = due_entries(s, now_ns);
        let f1 = due_entries(reg1.deadlines(class), now_ns);
        assert(f0.contains((d, id0)));
        assert(f1.subset_of(f0.remove((d, id0))));
        reg1.lemma_deadlines_finite(class);
        reg1.deadlines(class).lemma_len_filter(|e: (u64, u64)| e.0 <= now_ns);
        assert(f1 == reg1.deadlines(class).filter(|e: (u64, u64)| e.0 <= now_ns));
        vstd::set_lib::lemma_len_subset(f1, f0.remove((d, id0)));
        vstd::set::axiom_set_remove_len(f0, (d, id0));
        assert forall|c: DeadlineClass| #![trigger reg1.deadlines(c)] due_entries(reg1.deadlines(c), now_ns).subset_of(
            due_entries(reg0.deadlines(c), now_ns),
        ) by {}
    }
    let ghost dd = first_deadline(reg0.deadlines(class))->0;
    let mut woken: Vec<u64> = Vec::new();
    proof {
        assert(ids@.take(0) =~= Seq::<u64>::empty());
        if cons {
            assert forall|e: (u64, u64)| #[trigger] registry.deadlines(class).contains(e) <==> (reg1.deadlines(
                class,
            ).contains(e) || exists|i: int|
                0 <= i < timers0.len() && served_in(timers0, class, dd, now_ns, ids@.take(0), i) && stays_armed(
                    timers0[i],
                    now_ns,
                ) && e == #[trigger] rearmed_entry(timers0[i], now_ns)) by {}
            assert forall|id: u64| #[trigger] woken@.contains(id) <==> exists|i: int|
                0 <= i < timers0.len() && served_in(timers0, class, dd, now_ns, ids@.take(0), i) && #[trigger] timers0[i].id()
                    == id by {}
        }
    }
    let mut j: usize = 0;
    while j < ids.len()
        invariant
            j <= ids@.len(),
            cons == filed_consistently(reg0.deadlines(class), class, timers0),
            due_by(first_deadline(reg0.deadlines(class)), now_ns),
            dd == first_deadline(reg0.deadlines(class))->0,
            reg1.deadlines(class) == reg0.deadlines(class).filter(|e: (u64, u64)| e.0 != dd),
            ids@.to_set() == ids_at(reg0.deadlines(class), dd),
            forall|a: int, b: int| 0 <= a < b < ids@.len() ==> ids@[a] < ids@[b],
            forall|c: DeadlineClass| c != class ==> #[trigger] reg1.deadlines(c) == reg0.deadlines(c),
            cons ==> round_progress(
                reg1.deadlines(class),
                registry.deadlines(class),
                timers0,
                timers@,
                woken@,
                class,
                dd,
                now_ns,
                ids@.take(j as int),
            ),
            cons ==> forall|c: DeadlineClass| c != class ==> #[trigger] registry.deadlines(c) == reg0.deadlines(c),
            registry.wf(),
            registry.next_id() == reg0.next_id(),
            now_ns < u64::MAX,
            refreshed_or_kept(timers0, timers@, now_ns),
            forall|c: DeadlineClass| #![trigger registry.deadlines(c)] due_entries(registry.deadlines(c), now_ns).subset_of(
                due_entries(reg1.deadlines(c), now_ns),
            ),
            forall|k: int| 0 <= k < woken@.len() ==> readable_timer(timers@, #[trigger] woken@[k]),
            forall|id: u64| #[trigger] readable_timer(timers0, id) ==> readable_timer(timers@, id),
            forall|c: DeadlineClass| #![trigger reg1.deadlines(c)] due_entries(reg1.deadlines(c), now_ns).subset_of(
                due_entries(reg0.deadlines(c), now_ns),
            ),
            due_entries(reg1.deadlines(class), now_ns).len() < due_entries(reg0.deadlines(class), now_ns).len(),
            due_entries(reg1.deadlines(class), now_ns).finite(),
        decreases ids@.len() - j,
    {
        let id = ids[j];
        match timer_index(timers, id) {
            None => {
                proof {
                    if cons {
                        lemma_round_skip(reg1.deadlines(class), registry.deadlines(class), timers0, timers@, woken@, class, dd, now_ns, ids@, j as int);
                    }
                }
            },
            Some(k) => {
                let ghost reg_before = *registry;
                let ghost ts_before = timers@;
                let ghost t_before = timers@[k as int];
                let ghost woken_before = woken@;
                let changed = timers[k].refresh_due(registry, now_ns);
                if changed && timers[k].state.ticks != 0 {
                    timers[k].bump();
                    woken.push(id);
                }
                proof {
                    lemma_refreshed_not_due(t_before.state(), now_ns);
                    let cls = spec_deadline_class(t_before.clock());
                    if changed {
                        lemma_moved_not_due(
                            reg_before.deadlines(cls),
                            t_before.id(),
                            t_before.state().expires_ns,
                            refreshed(t_before.state(), now_ns).expires_ns,
                            now_ns,
                        );
                    }
                    assert forall|c: DeadlineClass| #![trigger registry.deadlines(c)] due_entries(registry.deadlines(c), now_ns).subset_of(
                        due_entries(reg1.deadlines(c), now_ns),
                    ) by {
                        assert(due_entries(reg_before.deadlines(c), now_ns).subset_of(
                            due_entries(reg1.deadlines(c), now_ns),
                        ));
                    }
                    assert forall|i: int| 0 <= i < timers0.len() implies {
                        &&& #[trigger] timers@[i].id() == timers0[i].id()
                        &&& timers@[i].clock() == timers0[i].clock()
                        &&& (timers@[i].state() == timers0[i].state() || timers@[i].state() == refreshed(
                            timers0[i].state(),
                            now_ns,
                        ))
                    } by {
                        assert(ts_before[i].id() == timers0[i].id());
                        if i == k {
                            lemma_refresh_idempotent(timers0[i].state(), now_ns);
                            lemma_refresh_grows_ticks(ts_before[i].state(), now_ns);
                        }
                    }
                    assert forall|q: int| 0 <= q < woken@.len() implies readable_timer(timers@, #[trigger] woken@[q]) by {
                        if q == woken@.len() - 1 && changed && timers@[k as int].state().ticks != 0 {
                            assert(timers@[k as int].id() == id);
                        } else {
                            let i0 = choose|i0: int| 0 <= i0 < ts_before.len() && #[trigger] ts_before[i0].id() == woken@[q]
                                && ts_before[i0].state().ticks != 0;
                            if i0 == k {
                                lemma_refresh_grows_ticks(ts_before[i0].state(), now_ns);
                            }
                            assert(timers@[i0].id() == woken@[q] && timers@[i0].state().ticks != 0);
                        }
                    }
                    assert forall|id2: u64| #[trigger] readable_timer(ts_before, id2) implies readable_timer(timers@, id2) by {
                        let i0 = choose|i0: int| 0 <= i0 < ts_before.len() && #[trigger] ts_before[i0].id() == id2
                            && ts_before[i0].state().ticks != 0;
                        if i0 == k {
                            lemma_refresh_grows_ticks(ts_before[i0].state(), now_ns);
                        }
                        assert(timers@[i0].id() == id2 && timers@[i0].state().ticks != 0);
                    }
                    if cons {
                        lemma_round_serve(
                            reg0.deadlines(class),
                            reg1.deadlines(class),
                            reg_before.deadlines(class),
                            registry.deadlines(class),
                            timers0,
                            ts_before,
                            timers@,
                            woken_before,
                            woken@,
                            class,
                            dd,
                            now_ns,
                            ids@,
                            j as int,
                            k as int,
                            changed,
                        );
                    }
                }
            },
        }
        j = j + 1;
    }
    proof {
        let fin = due_entries(registry.deadlines(class), now_ns);
        let f1 = due_entries(reg1.deadlines(class), now_ns);
        vstd::set_lib::lemma_len_subset(fin, f1);
        assert forall|c: DeadlineClass| #![trigger registry.deadlines(c)] due_entries(registry.deadlines(c), now_ns).subset_of(
            due_entries(reg0.deadlines(c), now_ns),
        ) by {
            assert(due_entries(reg1.deadlines(c), now_ns).subset_of(due_entries(reg0.deadlines(c), now_ns)));
        }
        if cons {
            assert(ids@.take(ids@.len() as int) =~= ids@);
            lemma_round_done(
                reg0.deadlines(class),
                reg1.deadlines(class),
                registry.deadlines(class),
                timers0,
                timers@,
                woken@,
                class,
                dd,
                now_ns,
                ids@,
            );
        }
    }
    Some(woken)
}

/// A refresh never takes expirations away.
proof fn lemma_refresh_grows_ticks(s: TimerFdState, now: u64)
    ensures
        refreshed(s, now).ticks >= s.ticks,
{
}

/// Wakes the timers of `class` at `now_ns`: rounds of `wake_due_timers` until no deadline
/// of `class` has passed. Returns the IDs of the timers that gained expirations to read,
/// in the order they did, for their readers to be woken. A timer can be due only through
/// its entry in the registry.
pub fn wake_expired_class(
    registry: &mut TimerFdRegistry,
    class: DeadlineClass,
    now_ns: u64,
    timers: &mut Vec<TimerFdFile>,
) -> (r: Vec<u64>)
    requires
        old(registry).wf(),
        now_ns < u64::MAX,
    ensures
        final(registry).wf(),
        final(registry).next_id() == old(registry).next_id(),
        refreshed_or_kept(old(timers)@, final(timers)@, now_ns),
        forall|e: (u64, u64)| #[trigger] final(registry).deadlines(class).contains(e) ==> e.0 > now_ns,
        forall|c: DeadlineClass| #![trigger final(registry).deadlines(c)] due_entries(final(registry).deadlines(c), now_ns).subset_of(
            due_entries(old(registry).deadlines(c), now_ns),
        ),
        forall|j: int| 0 <= j < r@.len() ==> readable_timer(final(timers)@, #[trigger] r@[j]),
        filed_consistently(old(registry).deadlines(class), class, old(timers)@) ==> wake_served(
            old(registry).deadlines(class),
            final(registry).deadlines(class),
            old(timers)@,
            final(timers)@,
            r@,
            class,
            now_ns,
        ) && filed_consistently(final(registry).deadlines(class), class, final(timers)@) && forall|c: DeadlineClass|
            c != class ==> #[trigger] final(registry).deadlines(c) == old(registry).deadlines(c),
{
    let ghost reg0 = *registry;
    let ghost timers0 = timers@;
    let ghost cons0 = filed_consistently(reg0.deadlines(class), class, timers0);
    let mut all: Vec<u64> = Vec::new();
    proof {
        if cons0 {
            lemma_wake_start(reg0.deadlines(class), timers0, class, now_ns);
        }
    }
    loop
        invariant_except_break
            registry.wf(),
            registry.next_id() == reg0.next_id(),
            now_ns < u64::MAX,
            refreshed_or_kept(timers0, timers@, now_ns),
            forall|c: DeadlineClass| #![trigger registry.deadlines(c)] due_entries(registry.deadlines(c), now_ns).subset_of(
                due_entries(reg0.deadlines(c), now_ns),
            ),
            forall|j: int| 0 <= j < all@.len() ==> readable_timer(timers@, #[trigger] all@[j]),
            cons0 == filed_consistently(reg0.deadlines(class), class, timers0),
            cons0 ==> wake_progress(reg0.deadlines(class), registry.deadlines(class), timers0, timers@, all@, class, now_ns),
            cons0 ==> forall|c: DeadlineClass| c != class ==> #[trigger] registry.deadlines(c) == reg0.deadlines(c),
        ensures
            registry.wf(),
            registry.next_id() == reg0.next_id(),
            refreshed_or_kept(timers0, timers@, now_ns),
            forall|e: (u64, u64)| #[trigger] registry.deadlines(class).contains(e) ==> e.0 > now_ns,
            forall|c: DeadlineClass| #![trigger registry.deadlines(c)] due_entries(registry.deadlines(c), now_ns).subset_of(
                due_entries(reg0.deadlines(c), now_ns),
            ),
            forall|j: int| 0 <= j < all@.len() ==> readable_timer(timers@, #[trigger] all@[j]),
            cons0 ==> wake_served(reg0.deadlines(class), registry.deadlines(class), timers0, timers@, all@, class, now_ns),
            cons0 ==> filed_consistently(registry.deadlines(class), class, timers@),
            cons0 ==> forall|c: DeadlineClass| c != class ==> #[trigger] registry.deadlines(c) == reg0.deadlines(c),
        decreases due_entries(registry.deadlines(class), now_ns).len(),
    {
        let ghost reg_before = *registry;
        let ghost ts_before = timers@;
        match wake_due_timers(registry, class, now_ns, timers) {
            None => {
                proof {
                    let s = registry.deadlines(class);
                    registry.lemma_deadlines_finite(class);
                    assert forall|e: (u64, u64)| #[trigger] s.contains(e) implies e.0 > now_ns by {
                        if s.len() > 0 {
                            lemma_earliest_exists(s);
                        } else {
                            if s.contains(e) {
                                vstd::set::axiom_set_remove_len(s, e);
                            }
                        }
                    }
                    if cons0 {
                        lemma_wake_done(reg0.deadlines(class), s, timers0, timers@, all@, class, now_ns);
                    }
                }
                break;
            },
            Some(ids) => {
                proof {
                    if cons0 {
                        let l_before = reg_before.deadlines(class);
                        assert(filed_consistently(l_before, class, ts_before));
                        assert(due_by(first_deadline(l_before), now_ns));
                        lemma_wake_step(
                            reg0.deadlines(class),
                            l_before,
                            registry.deadlines(class),
                            timers0,
                            ts_before,
                            timers@,
                            all@,
                            ids@,
                            class,
                            first_deadline(l_before)->0,
                            now_ns,
                        );
                    }
                    assert forall|i: int| 0 <= i < timers0.len() implies {
                        &&& #[trigger] timers@[i].id() == timers0[i].id()
                        &&& timers@[i].clock() == timers0[i].clock()
                        &&& (timers@[i].state() == timers0[i].state() || timers@[i].state() == refreshed(
                            timers0[i].state(),
                            now_ns,
                        ))
                    } by {
                        assert(ts_before[i].id() == timers0[i].id());
                        assert(timers@[i].id() == ts_before[i].id());
                        lemma_refresh_idempotent(timers0[i].state(), now_ns);
                    }
                    assert forall|c: DeadlineClass| #![trigger registry.deadlines(c)] due_entries(registry.deadlines(c), now_ns).subset_of(
                        due_entries(reg0.deadlines(c), now_ns),
                    ) by {
                        assert(due_entries(registry.deadlines(c), now_ns).subset_of(
                            due_entries(reg_before.deadlines(c), now_ns),
                        ));
                        assert(due_entries(reg_before.deadlines(c), now_ns).subset_of(
                            due_entries(reg0.deadlines(c), now_ns),
                        ));
                    }
                }
                let ghost all_before = all@;
                let ghost ids_seq = ids@;
                let mut ids = ids;
                all.append(&mut ids);
                proof {
                    assert forall|j: int| 0 <= j < all@.len() implies readable_timer(timers@, #[trigger] all@[j]) by {
                        if j < all_before.len() {
                            assert(all@[j] == all_before[j]);
                        } else {
                            assert(all@[j] == ids_seq[j - all_before.len()]);
                        }
                    }
                }
            },
        }
    }
    all
}

} // verus!
