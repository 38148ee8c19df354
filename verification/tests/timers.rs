use lib::errno::SysErr;
use lib::fs::error::FsError;
use lib::fs::timerfd::{parse_timerfd_clock, wake_due_timers, wake_expired_class, DeadlineClass, LinuxItimerSpec, TimerFdClock, TimerFdFile, TimerFdRegistry, TFD_TIMER_ABSTIME, TFD_TIMER_CANCEL_ON_SET};
use lib::process::itimer::RealTimerRegistry;
use lib::signal::abi::SIGALRM;
use lib::timespec::LinuxTimespec;

const MS: u64 = 1_000_000;

fn spec(interval_ns: u64, value_ns: u64) -> LinuxItimerSpec {
    let ts = |ns: u64| LinuxTimespec { tv_sec: (ns / 1_000_000_000) as i64, tv_nsec: (ns % 1_000_000_000) as i64 };
    LinuxItimerSpec { it_interval: ts(interval_ns), it_value: ts(value_ns) }
}

#[test]
fn clocks() {
    assert_eq!(parse_timerfd_clock(0), Ok(TimerFdClock::Realtime));
    assert_eq!(parse_timerfd_clock(1), Ok(TimerFdClock::Monotonic));
    assert_eq!(parse_timerfd_clock(7), Ok(TimerFdClock::Boottime));
    assert_eq!(TimerFdClock::Boottime.deadline_class(), DeadlineClass::Monotonic);
    assert_eq!(TimerFdClock::RealtimeAlarm.deadline_class(), DeadlineClass::Realtime);
    assert!(parse_timerfd_clock(3).is_err());
}

#[test]
fn itimerspec_records() {
    let bytes = spec(MS, 2 * MS).write_to();
    assert_eq!(bytes.len(), 32);
    assert_eq!(LinuxItimerSpec::read_from(&bytes), Ok(spec(MS, 2 * MS)));
    assert_eq!(LinuxItimerSpec::read_from(&bytes[..31]), Err(SysErr::Fault));
    let bad = LinuxItimerSpec { it_interval: LinuxTimespec { tv_sec: 0, tv_nsec: -1 }, ..spec(0, 0) };
    assert_eq!(LinuxItimerSpec::read_from(&bad.write_to()), Err(SysErr::Inval));
}

#[test]
fn a_periodic_timerfd_counts_expirations() {
    let mut registry = TimerFdRegistry::new();
    let mut timer = TimerFdFile::create(&mut registry, TimerFdClock::Monotonic);
    assert_eq!(timer.read(&mut registry, 0, 8), Err(FsError::WouldBlock));
    let previous = timer.set_time(&mut registry, 0, spec(10 * MS, 10 * MS), 1000 * MS).unwrap();
    assert_eq!(previous, spec(0, 0));
    assert_eq!(registry.next_deadline(DeadlineClass::Monotonic), Some(1010 * MS));
    assert!(!timer.poll(&mut registry, 1005 * MS, true));
    assert_eq!(timer.read(&mut registry, 1035 * MS, 4), Err(FsError::InvalidInput));
    assert_eq!(timer.read(&mut registry, 1035 * MS, 8), Ok(3));
    assert_eq!(registry.next_deadline(DeadlineClass::Monotonic), Some(1040 * MS));
    let now = timer.get_time(&mut registry, 1035 * MS);
    assert_eq!(now, spec(10 * MS, 5 * MS));
    timer.release(&mut registry);
    assert_eq!(registry.next_deadline(DeadlineClass::Monotonic), None);
}

#[test]
fn a_one_shot_absolute_timer() {
    let mut registry = TimerFdRegistry::new();
    let mut timer = TimerFdFile::create(&mut registry, TimerFdClock::Realtime);
    timer.set_time(&mut registry, TFD_TIMER_ABSTIME, spec(0, 500 * MS), 100 * MS).unwrap();
    assert!(registry.deadline_due(0, 600 * MS));
    assert_eq!(timer.read(&mut registry, 600 * MS, 8), Ok(1));
    assert_eq!(timer.read(&mut registry, 700 * MS, 8), Err(FsError::WouldBlock));
    assert_eq!(timer.set_time(&mut registry, TFD_TIMER_CANCEL_ON_SET, spec(0, MS), 0), Err(SysErr::Inval));
}

#[test]
fn interval_timers_raise_sigalrm() {
    let mut timers = RealTimerRegistry::new();
    assert_eq!(timers.set_real_timer(7, 0, 100, 0), (0, 0));
    assert_eq!(timers.read_real_timer(7, 40), (60, 0));
    timers.set_real_timer(9, 0, 100, 50);
    assert_eq!(timers.next_deadline(), Some(100));
    assert!(!timers.deadline_due(99));
    let fired = timers.take_expired(120);
    assert_eq!(fired.len(), 2);
    assert_eq!(fired[0].0, 7);
    assert_eq!(fired[1].0, 9);
    assert_eq!(fired[0].1.signal, SIGALRM);
    assert_eq!(timers.read_real_timer(7, 120), (0, 0));
    assert_eq!(timers.read_real_timer(9, 120), (30, 50));
    timers.thread_group_reaped(9);
    assert_eq!(timers.next_deadline(), None);
}

#[test]
fn a_rearmed_timer_is_filed_under_its_new_expiry() {
    let mut registry = TimerFdRegistry::new();
    let mut timer = TimerFdFile::create(&mut registry, TimerFdClock::Monotonic);
    timer.set_time(&mut registry, 0, spec(0, 50 * MS), 0).unwrap();
    assert_eq!(registry.next_deadline(DeadlineClass::Monotonic), Some(50 * MS));
    assert_eq!(timer.set_time(&mut registry, TFD_TIMER_CANCEL_ON_SET, spec(0, MS), 0), Err(SysErr::Inval));
    assert_eq!(registry.next_deadline(DeadlineClass::Monotonic), Some(50 * MS));
    timer.set_time(&mut registry, 0, spec(0, 80 * MS), 10 * MS).unwrap();
    assert_eq!(registry.next_deadline(DeadlineClass::Monotonic), Some(90 * MS));
    assert_eq!(registry.take_due(DeadlineClass::Monotonic, 60 * MS), None);
    assert_eq!(registry.take_due(DeadlineClass::Monotonic, 90 * MS), Some(vec![1]));
    timer.set_time(&mut registry, 0, spec(0, 0), 100 * MS).unwrap();
    assert_eq!(registry.next_deadline(DeadlineClass::Monotonic), None);
}

#[test]
fn expired_timers_are_woken_round_by_round() {
    let mut registry = TimerFdRegistry::new();
    let mut a = TimerFdFile::create(&mut registry, TimerFdClock::Monotonic);
    let mut b = TimerFdFile::create(&mut registry, TimerFdClock::Boottime);
    let mut c = TimerFdFile::create(&mut registry, TimerFdClock::Monotonic);
    let mut gone = TimerFdFile::create(&mut registry, TimerFdClock::Monotonic);
    a.set_time(&mut registry, 0, spec(10 * MS, 10 * MS), 0).unwrap();
    b.set_time(&mut registry, 0, spec(0, 15 * MS), 0).unwrap();
    c.set_time(&mut registry, 0, spec(0, 100 * MS), 0).unwrap();
    gone.set_time(&mut registry, 0, spec(0, 12 * MS), 0).unwrap();
    let versions = (a.version(), b.version());
    let mut timers = vec![a, b, c];

    assert_eq!(wake_due_timers(&mut registry, DeadlineClass::Monotonic, 5 * MS, &mut timers), None);
    assert_eq!(wake_expired_class(&mut registry, DeadlineClass::Monotonic, 35 * MS, &mut timers), vec![1, 2]);
    assert_eq!(registry.next_deadline(DeadlineClass::Monotonic), Some(40 * MS));
    assert_ne!(timers[0].version(), versions.0);
    assert_ne!(timers[1].version(), versions.1);
    assert_eq!(timers[0].read(&mut registry, 35 * MS, 8), Ok(3));
    assert_eq!(timers[1].read(&mut registry, 35 * MS, 8), Ok(1));
    assert_eq!(timers[2].read(&mut registry, 35 * MS, 8), Err(FsError::WouldBlock));
    assert_eq!(wake_expired_class(&mut registry, DeadlineClass::Monotonic, 35 * MS, &mut timers), Vec::<u64>::new());
}
