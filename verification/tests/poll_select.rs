use lib::errno::SysErr;
use lib::fs::poll::{
    evaluate_poll_fds, evaluate_select_fd_sets, events_to_linux_poll, fd_set_assign,
    fd_set_bytes_len, fd_set_test, linux_poll_to_events, poll_wait_step, poll_wake, select_ready, LinuxPollFd,
    PollWaitStep, PollWake, POLLERR,
    POLLHUP, POLLIN, POLLNVAL, POLLOUT, POLLPRI, POLLRDHUP, POLLWRBAND, POLL_ERROR, POLL_HUP,
    POLL_INVALID, POLL_RDHUP, POLL_READ, POLL_WRITE,
};
use lib::net::{cmsg_align, cmsg_space, parse_accept4_flags, serialize_cmsg, SOCK_CLOEXEC, SOCK_NONBLOCK};

#[test]
fn poll_event_mapping() {
    assert_eq!(linux_poll_to_events(POLLIN), POLL_READ);
    assert_eq!(linux_poll_to_events(POLLPRI), POLL_READ);
    assert_eq!(linux_poll_to_events(POLLWRBAND | POLLERR), POLL_WRITE | POLL_ERROR);
    assert_eq!(linux_poll_to_events(POLLRDHUP | POLLNVAL), POLL_RDHUP | POLL_INVALID);
    assert_eq!(events_to_linux_poll(POLL_READ | POLL_HUP), POLLIN | POLLHUP);
    assert_eq!(events_to_linux_poll(POLL_WRITE | POLL_RDHUP), POLLOUT | POLLRDHUP);
    assert_eq!(events_to_linux_poll(0), 0);
}

#[test]
fn fd_sets() {
    assert_eq!(fd_set_bytes_len(0), 0);
    assert_eq!(fd_set_bytes_len(1), 1);
    assert_eq!(fd_set_bytes_len(8), 1);
    assert_eq!(fd_set_bytes_len(9), 2);
    let mut bits = vec![0u8; 2];
    fd_set_assign(&mut bits, 9, true);
    assert_eq!(bits, vec![0, 2]);
    assert!(fd_set_test(&bits, 9));
    assert!(!fd_set_test(&bits, 8));
    assert!(!fd_set_test(&bits, 100));
    fd_set_assign(&mut bits, 100, true);
    assert_eq!(bits, vec![0, 2]);
    fd_set_assign(&mut bits, 9, false);
    assert_eq!(bits, vec![0, 0]);
}

#[test]
fn pollfd_bytes() {
    let p = LinuxPollFd { fd: 3, events: POLLIN, revents: -1 };
    let b = p.to_bytes();
    assert_eq!(b, vec![3, 0, 0, 0, 1, 0, 0xff, 0xff]);
    assert_eq!(LinuxPollFd::from_bytes(&b), p);
}

#[test]
fn poll_evaluation() {
    let mut fds = vec![
        LinuxPollFd { fd: -1, events: POLLIN, revents: 7 },
        LinuxPollFd { fd: 4, events: POLLIN, revents: 0 },
        LinuxPollFd { fd: 5, events: POLLIN, revents: 0 },
        LinuxPollFd { fd: 6, events: POLLOUT, revents: 0 },
    ];
    let probes = vec![None, None, Some(Ok(POLL_READ)), Some(Ok(0))];
    assert_eq!(evaluate_poll_fds(&mut fds, &probes), Ok(2));
    assert_eq!(fds.iter().map(|p| p.revents).collect::<Vec<_>>(), vec![0, POLLNVAL, POLLIN, 0]);
}

#[test]
fn a_failing_poll_ends_the_evaluation() {
    let mut fds = vec![
        LinuxPollFd { fd: 4, events: POLLIN, revents: 0 },
        LinuxPollFd { fd: 5, events: POLLIN, revents: 9 },
        LinuxPollFd { fd: 6, events: POLLIN, revents: 9 },
    ];
    let probes = vec![Some(Ok(POLL_READ)), Some(Err(SysErr::Io)), Some(Err(SysErr::Perm))];
    assert_eq!(evaluate_poll_fds(&mut fds, &probes), Err(SysErr::Io));
    assert_eq!(fds.iter().map(|p| p.revents).collect::<Vec<_>>(), vec![POLLIN, 0, 9]);
    let mut read = vec![0b0000_0011u8];
    let mut write = vec![0u8];
    let mut except = vec![0u8];
    let probes = vec![Some(Err(SysErr::Io)), None];
    assert_eq!(evaluate_select_fd_sets(2, &mut read, &mut write, &mut except, &probes), Err(SysErr::Io));
}

#[test]
fn select_evaluation() {
    assert_eq!(select_ready(true, true, POLL_READ), (true, false));
    assert_eq!(select_ready(true, true, POLL_HUP), (true, true));
    assert_eq!(select_ready(false, true, POLL_READ), (false, false));
    let mut read = vec![0b0000_0110u8];
    let mut write = vec![0b0000_0100u8];
    let mut except = vec![0b0000_0001u8];
    let probes = vec![Some(Ok(0)), Some(Ok(POLL_READ)), Some(Ok(POLL_WRITE))];
    assert_eq!(evaluate_select_fd_sets(3, &mut read, &mut write, &mut except, &probes), Ok(2));
    assert_eq!(read, vec![0b0000_0010]);
    assert_eq!(write, vec![0b0000_0100]);
    assert_eq!(except, vec![0]);
    let mut read = vec![0b0000_0010u8];
    let mut write = vec![0u8];
    let mut except = vec![0u8];
    let probes = vec![Some(Ok(0)), None];
    assert_eq!(evaluate_select_fd_sets(2, &mut read, &mut write, &mut except, &probes), Err(SysErr::BadFd));
}

#[test]
fn control_messages() {
    assert_eq!(cmsg_align(0), 0);
    assert_eq!(cmsg_align(17), 24);
    assert_eq!(cmsg_space(4), 24);
    let m = serialize_cmsg(1, 1, &[9, 8, 7, 6]);
    assert_eq!(m.len(), 24);
    assert_eq!(&m[0..8], &20u64.to_le_bytes());
    assert_eq!(&m[8..12], &1i32.to_le_bytes());
    assert_eq!(&m[12..16], &1i32.to_le_bytes());
    assert_eq!(&m[16..20], &[9, 8, 7, 6]);
    assert_eq!(&m[20..24], &[0, 0, 0, 0]);
    assert_eq!(serialize_cmsg(1, 2, &[0; 8]).len(), 24);
}

#[test]
fn accept4_flags() {
    let (f, cloexec) = parse_accept4_flags(SOCK_NONBLOCK | SOCK_CLOEXEC).unwrap();
    assert!(f.read && f.write && f.nonblock && cloexec);
    let (f, cloexec) = parse_accept4_flags(0).unwrap();
    assert!(!f.nonblock && !cloexec);
    assert_eq!(parse_accept4_flags(1), Err(SysErr::Inval));
}

#[test]
fn waits_return_block_or_fail_in_order() {
    assert_eq!(poll_wait_step(2, Some(0), true), PollWaitStep::Return(Ok(2)));
    assert_eq!(poll_wait_step(0, Some(0), true), PollWaitStep::Return(Ok(0)));
    assert_eq!(poll_wait_step(0, None, true), PollWaitStep::Return(Err(SysErr::Intr)));
    assert_eq!(poll_wait_step(0, Some(5), false), PollWaitStep::Block);
    assert_eq!(poll_wake(Some(false)), PollWake::Again);
    assert_eq!(poll_wake(Some(true)), PollWake::TimedOut);
    assert_eq!(poll_wake(None), PollWake::Interrupted);
}
