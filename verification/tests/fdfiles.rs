use lib::fs::error::FsError;
use lib::fs::eventfd::{create_eventfd, EventFdRead, EventFdWrite, EFD_SEMAPHORE, EVENTFD_COUNTER_MAX};
use lib::fs::fd::{linux_open_flags, linux_status_flags, FdTable, OpenFlags, O_APPEND, O_DIRECTORY, O_NONBLOCK, O_RDWR, O_WRONLY};
use lib::fs::pidfd::{pidfd_read_write, pidfd_waits_for, PidFdHandle};
use lib::fs::poll::{POLL_HUP, POLL_READ, POLL_WRITE};
use lib::signal::abi::{SignalInfo, SIGINT, SIGTERM, SIGUSR1};
use lib::signal::fd::{create_signalfd, signalfd_waits_for, SIGNALFD_SIGINFO_SIZE};
use lib::signal::state::SignalState;

#[test]
fn eventfd_counts_and_drains() {
    let mut e = create_eventfd(3, 0);
    assert_eq!(e.version(), 1);
    assert_eq!(e.read(7), Err(FsError::InvalidInput));
    assert_eq!(e.read(8), Ok(EventFdRead { value: 3, wake_writers: false }));
    assert_eq!(e.version(), 2);
    assert_eq!(e.read(8), Err(FsError::WouldBlock));
    assert_eq!(e.write(&5u64.to_le_bytes()), Ok(EventFdWrite { changed: true, wake_readers: true }));
    assert_eq!(e.write(&2u64.to_le_bytes()), Ok(EventFdWrite { changed: true, wake_readers: false }));
    assert_eq!(e.write(&0u64.to_le_bytes()), Ok(EventFdWrite { changed: false, wake_readers: false }));
    assert_eq!(e.read(16), Ok(EventFdRead { value: 7, wake_writers: false }));
}

#[test]
fn eventfd_semaphore_takes_one() {
    let mut e = create_eventfd(2, EFD_SEMAPHORE);
    assert_eq!(e.read(8).unwrap().value, 1);
    assert_eq!(e.read(8).unwrap().value, 1);
    assert_eq!(e.read(8), Err(FsError::WouldBlock));
}

#[test]
fn eventfd_write_limits() {
    let mut e = create_eventfd(0, 0);
    assert_eq!(e.write(&[1, 2, 3]), Err(FsError::InvalidInput));
    assert_eq!(e.write(&u64::MAX.to_le_bytes()), Err(FsError::InvalidInput));
    assert!(e.write(&EVENTFD_COUNTER_MAX.to_le_bytes()).is_ok());
    assert_eq!(e.write(&1u64.to_le_bytes()), Err(FsError::WouldBlock));
    assert_eq!(e.poll(POLL_READ | POLL_WRITE), POLL_READ);
    assert_eq!(e.read(8), Ok(EventFdRead { value: EVENTFD_COUNTER_MAX, wake_writers: true }));
    assert_eq!(e.poll(POLL_READ | POLL_WRITE), POLL_WRITE);
    assert_eq!(e.poll(POLL_READ), 0);
}

#[test]
fn pidfd_lifecycle() {
    let mut h = PidFdHandle::new(42);
    assert_eq!(h.pid(), 42);
    assert_eq!(h.ready_events(POLL_READ | POLL_HUP), 0);
    assert!(h.mark_exited());
    assert!(!h.mark_exited());
    assert_eq!(h.wait_token(), 2);
    assert_eq!(h.ready_events(POLL_READ | POLL_HUP), POLL_READ);
    assert!(h.mark_reaped());
    assert!(!h.mark_reaped());
    assert_eq!(h.ready_events(POLL_READ | POLL_HUP), POLL_READ | POLL_HUP);
    assert_eq!(h.ready_events(POLL_HUP), POLL_HUP);
    assert_eq!(h.wait_token(), 3);
    assert!(pidfd_waits_for(POLL_HUP));
    assert!(!pidfd_waits_for(POLL_WRITE));
    assert_eq!(pidfd_read_write(), Err(FsError::InvalidInput));
}

#[test]
fn reaping_a_live_process_skips_exited() {
    let mut h = PidFdHandle::new(7);
    assert!(h.mark_reaped());
    assert!(!h.mark_exited());
    assert_eq!(h.ready_events(POLL_READ), POLL_READ);
}

fn info(signal: u8) -> SignalInfo {
    SignalInfo { signal, code: -6, status: 9, pid: 77, uid: 1000 }
}

#[test]
fn signalfd_queues_only_masked_signals() {
    let state = SignalState::new();
    let mask = (1u64 << (SIGINT - 1)) | (1u64 << (SIGUSR1 - 1));
    let mut f = create_signalfd(&state, mask);
    assert_eq!(f.mask(), mask);
    assert_eq!(f.poll(POLL_READ), 0);
    assert!(!f.notify_signal(info(SIGTERM)));
    assert!(!f.notify_signal(info(0)));
    assert!(f.notify_signal(info(SIGINT)));
    assert!(f.notify_signal(info(SIGUSR1)));
    assert_eq!(f.poll(POLL_READ), POLL_READ);
    assert_eq!(f.read(0), Ok(Vec::new()));
    assert_eq!(f.read(100), Err(FsError::InvalidInput));
    let one = f.read(SIGNALFD_SIGINFO_SIZE + 10).unwrap();
    assert_eq!(one.len(), 128);
    assert_eq!(&one[0..4], &(SIGINT as u32).to_le_bytes());
    assert_eq!(&one[4..8], &[0, 0, 0, 0]);
    assert_eq!(&one[8..12], &(-6i32).to_le_bytes());
    assert_eq!(&one[12..16], &77i32.to_le_bytes());
    assert_eq!(&one[16..20], &1000u32.to_le_bytes());
    assert_eq!(&one[40..44], &9i32.to_le_bytes());
    assert!(one[44..].iter().all(|b| *b == 0));
    let two = f.read(1024).unwrap();
    assert_eq!(two.len(), 128);
    assert_eq!(two[0], SIGUSR1);
    assert_eq!(f.read(1024), Err(FsError::WouldBlock));
    assert!(signalfd_waits_for(POLL_READ));
    assert!(!signalfd_waits_for(POLL_WRITE));
    let g = f.with_signal_state(&state);
    assert_eq!(g.mask(), mask);
}

#[test]
fn signalfd_keeps_the_newest_sixty_four() {
    let state = SignalState::new();
    let mut f = create_signalfd(&state, u64::MAX);
    for i in 0..70u32 {
        let mut s = info(SIGINT);
        s.pid = i as i32;
        assert!(f.notify_signal(s));
    }
    let all = f.read(128 * 100).unwrap();
    assert_eq!(all.len(), 64 * 128);
    assert_eq!(&all[12..16], &6i32.to_le_bytes());
    assert_eq!(&all[63 * 128 + 12..63 * 128 + 16], &69i32.to_le_bytes());
}

#[test]
fn fd_table_allocates_lowest_free() {
    let mut t: FdTable<&str> = FdTable::new_with_stdio("in", "out", "err");
    assert_eq!(t.lowest_free(0), Some(3));
    assert_eq!(t.insert("a", false, 0), 3);
    assert_eq!(t.insert("b", true, 10), 10);
    assert_eq!(t.insert("c", false, 3), 4);
    assert!(t.close(1));
    assert!(!t.close(1));
    assert_eq!(t.insert("d", false, 0), 1);
    assert_eq!(t.get(10), Some((&"b", true)));
    assert_eq!(t.get(11), None);
    assert_eq!(t.fd_list(), vec![0, 1, 2, 3, 4, 10]);
}

#[test]
fn fd_table_duplicates() {
    let mut t: FdTable<String> = FdTable::empty();
    t.insert_at(5, "five".to_string(), false);
    assert_eq!(t.duplicate(5, 0, true), Some(0));
    assert_eq!(t.get(0), Some((&"five".to_string(), true)));
    assert_eq!(t.duplicate(9, 0, true), None);
    assert_eq!(t.duplicate_to(5, 7, false), Some(7));
    assert_eq!(t.duplicate_to(8, 7, false), None);
    assert_eq!(t.get(7), Some((&"five".to_string(), false)));
    assert_eq!(t.fd_list(), vec![0, 5, 7]);
}

#[test]
fn fd_table_ranges_and_cloexec() {
    let mut t: FdTable<u32> = FdTable::empty();
    for fd in 0..8u32 {
        t.insert_at(fd, fd * 10, fd % 2 == 0);
    }
    t.close_range(5, 3);
    assert_eq!(t.fd_list().len(), 8);
    t.close_range(2, 4);
    assert_eq!(t.fd_list(), vec![0, 1, 5, 6, 7]);
    t.set_cloexec_range(6, u32::MAX);
    assert_eq!(t.get(7), Some((&70, true)));
    assert_eq!(t.get(5), Some((&50, false)));
    assert!(t.set_cloexec(5, true));
    assert!(!t.set_cloexec(2, true));
    t.close_cloexec();
    assert_eq!(t.fd_list(), vec![1]);
    t.close_range(0, u32::MAX);
    assert!(t.fd_list().is_empty());
}

#[test]
fn open_flags_round_trip() {
    let f = linux_open_flags(O_RDWR | O_APPEND | O_NONBLOCK);
    assert_eq!(f, OpenFlags { read: true, write: true, append: true, nonblock: true, directory: false });
    assert_eq!(linux_status_flags(f), O_RDWR | O_APPEND | O_NONBLOCK);
    let w = linux_open_flags(O_WRONLY | O_DIRECTORY);
    assert_eq!((w.read, w.write, w.directory), (false, true, true));
    assert_eq!(linux_status_flags(w), O_WRONLY | O_DIRECTORY);
    let r = linux_open_flags(0);
    assert_eq!((r.read, r.write), (true, false));
    assert_eq!(linux_status_flags(r), 0);
    // Access mode 3 reads as read-only.
    let odd = linux_open_flags(3);
    assert_eq!((odd.read, odd.write), (true, false));
}
