use lib::errno::SysErr;
use lib::process::manager::{
    BlockResult, DispatchOutcome, DispatchTake, RunEvent, RunExit, ProcessBlock, ProcessManager, ProcessState, RunningTask, SendResult, SyscallDisposition,
    SyscallFinish, TaskEntry, TIMER_ABSTIME,
};
use lib::process::clone::{CloneParams, CLONE_SETTLS, CLONE_SIGHAND, CLONE_THREAD, CLONE_VFORK, CLONE_VM};
use lib::process::util::WUNTRACED;
use lib::process::{
    ChildEvent, ChildEventKind, FutexKey, PrctlState, ProcessIdentity, WaitChildApi, WaitChildSelector,
};
use lib::signal::abi::{SignalAction, SignalInfo, SA_NOCLDSTOP, SIGCHLD, SIGCONT, SIGFPE, SIGKILL, SIGSEGV, SIGSTOP, SIGTERM, SIG_IGN};
use lib::signal::delivery::SignalDelivery;
use lib::signal::state::SignalActions;
use lib::arch::exception::UserExceptionDetails;

fn entry(pid: u32, tgid: u32, parent: Option<u32>, pgid: u32, session: u32, state: ProcessState) -> TaskEntry {
    TaskEntry {
        identity: ProcessIdentity { pid, thread_group: tgid, parent, process_group: pgid, session },
        state,
        wake_result: None,
        assigned_cpu: 0,
        blocked_signals: 0,
    }
}

fn block_on(mgr: &mut ProcessManager, pid: u32, block: ProcessBlock) {
    let mut runnable = Vec::new();
    let t = entry(pid, pid, None, pid, pid, ProcessState::Blocked(block));
    assert_eq!(mgr.requeue_process(t, None, &mut runnable), None);
    assert!(runnable.is_empty());
}

#[test]
fn spawned_tasks_lead_their_groups_and_run() {
    let mut mgr = ProcessManager::new();
    let mut runnable = Vec::new();
    let a = mgr.spawn_task(None, 2, &mut runnable);
    let b = mgr.spawn_task(Some(a), 3, &mut runnable);
    assert_eq!((a, b), (1, 2));
    assert_eq!(runnable, vec![(1, 2), (2, 3)]);
    let tb = mgr.task(b).unwrap();
    assert_eq!(tb.identity, ProcessIdentity { pid: 2, thread_group: 2, parent: Some(1), process_group: 2, session: 2 });
    assert_eq!(tb.state, ProcessState::Runnable);
    assert!(mgr.has_thread_group(1));
    assert!(!mgr.has_thread_group(7));
    let running = Vec::new();
    assert_eq!(mgr.thread_group_of(2, &running), Some(2));
    assert_eq!(mgr.thread_group_of(9, &running), None);
    let running = vec![RunningTask { pid: 9, thread_group: 4, process_group: 4, cpu: 1 }];
    assert_eq!(mgr.thread_group_of(9, &running), Some(4));
    assert!(mgr.has_waitable_child(1, WaitChildSelector::Any, &running));
    assert!(mgr.has_waitable_child(1, WaitChildSelector::ProcessGroup(2), &running));
    assert!(!mgr.has_waitable_child(1, WaitChildSelector::Pid(5), &running));
}

#[test]
fn pids_can_be_requested() {
    let mut mgr = ProcessManager::new();
    let mut runnable = Vec::new();
    let running = vec![RunningTask { pid: 20, thread_group: 20, process_group: 20, cpu: 0 }];
    mgr.spawn_task(None, 0, &mut runnable);
    assert_eq!(mgr.allocate_pid(Some(0), &running), Err(SysErr::Inval));
    assert_eq!(mgr.allocate_pid(Some(1), &running), Err(SysErr::Exists));
    assert_eq!(mgr.allocate_pid(Some(20), &running), Err(SysErr::Exists));
    assert_eq!(mgr.allocate_pid(Some(50), &running), Ok(50));
    assert_eq!(mgr.allocate_pid(None, &running), Ok(51));
    assert_eq!(mgr.allocate_pid(Some(30), &running), Ok(30));
    assert_eq!(mgr.allocate_pid(None, &running), Ok(52));
}

#[test]
fn futex_wake_goes_by_pid_and_stops_at_count() {
    let key = FutexKey::private(1, 0x1000);
    let mut mgr = ProcessManager::new();
    block_on(&mut mgr, 7, ProcessBlock::Futex { key, bitset: 1, deadline_nanos: None });
    block_on(&mut mgr, 3, ProcessBlock::Futex { key, bitset: 1, deadline_nanos: None });
    block_on(&mut mgr, 5, ProcessBlock::Futex { key, bitset: 2, deadline_nanos: None });
    let mut runnable = Vec::new();
    assert_eq!(mgr.wake_futex(key, 1, 1, &mut runnable), 1);
    assert_eq!(runnable, vec![(3, 0)]);
    let t3 = mgr.task(3).unwrap();
    assert_eq!(t3.state, ProcessState::Runnable);
    assert_eq!(t3.wake_result, Some(BlockResult::Futex { woke: true, timed_out: false }));
    assert_eq!(mgr.wake_futex(key, 1, 10, &mut runnable), 1);
    assert_eq!(runnable, vec![(3, 0), (7, 0)]);
    assert_eq!(mgr.wake_futex(key, 1, 10, &mut runnable), 0);
    assert_eq!(mgr.wake_futex(FutexKey::shared(0x1000), u32::MAX, 10, &mut runnable), 0);
    assert_eq!(mgr.wake_futex(key, u32::MAX, 10, &mut runnable), 1);
    assert_eq!(runnable, vec![(3, 0), (7, 0), (5, 0)]);
}

#[test]
fn an_armed_wait_keeps_an_early_wake() {
    let key = FutexKey::shared(0x2000);
    let mut mgr = ProcessManager::new();
    let mut runnable = Vec::new();
    mgr.arm_futex_wait(4, key, 1);
    assert_eq!(mgr.wake_futex(key, 1, 1, &mut runnable), 1);
    assert!(runnable.is_empty());
    let mut t = entry(4, 4, None, 4, 4, ProcessState::Running);
    mgr.block_from_disposition(4, &mut t, ProcessBlock::Futex { key, bitset: 1, deadline_nanos: None });
    assert_eq!(t.state, ProcessState::Runnable);
    assert_eq!(t.wake_result, Some(BlockResult::Futex { woke: true, timed_out: false }));

    mgr.arm_futex_wait(6, key, 1);
    mgr.disarm_futex_wait(6);
    assert_eq!(mgr.wake_futex(key, 1, 1, &mut runnable), 0);
    let mut t = entry(6, 6, None, 6, 6, ProcessState::Running);
    let block = ProcessBlock::Futex { key, bitset: 1, deadline_nanos: None };
    mgr.block_from_disposition(6, &mut t, block);
    assert_eq!(t.state, ProcessState::Blocked(block));
    assert_eq!(t.wake_result, None);
}

#[test]
fn requeue_moves_waiters_to_another_futex() {
    let a = FutexKey::private(1, 0x10);
    let b = FutexKey::private(1, 0x20);
    let mut mgr = ProcessManager::new();
    block_on(&mut mgr, 1, ProcessBlock::Futex { key: a, bitset: u32::MAX, deadline_nanos: None });
    block_on(&mut mgr, 2, ProcessBlock::Futex { key: a, bitset: u32::MAX, deadline_nanos: Some(500) });
    block_on(&mut mgr, 3, ProcessBlock::Futex { key: a, bitset: u32::MAX, deadline_nanos: None });
    let mut runnable = Vec::new();
    assert_eq!(mgr.requeue_futex(a, b, 1, 1, u32::MAX, &mut runnable), 1);
    assert_eq!(runnable, vec![(1, 0)]);
    assert_eq!(
        mgr.task(2).unwrap().state,
        ProcessState::Blocked(ProcessBlock::Futex { key: b, bitset: u32::MAX, deadline_nanos: Some(500) })
    );
    assert_eq!(
        mgr.task(3).unwrap().state,
        ProcessState::Blocked(ProcessBlock::Futex { key: a, bitset: u32::MAX, deadline_nanos: None })
    );
    assert_eq!(mgr.next_timer_deadline_nanos(), Some(500));
    assert_eq!(mgr.wake_futex(b, u32::MAX, 5, &mut runnable), 1);
    assert_eq!(runnable, vec![(1, 0), (2, 0)]);
    assert_eq!(mgr.next_timer_deadline_nanos(), None);
}

#[test]
fn passed_deadlines_wake_sleepers_and_pollers() {
    let mut mgr = ProcessManager::new();
    block_on(&mut mgr, 8, ProcessBlock::Timer { target_nanos: 100, request_nanos: 100, rmtp: 0x40, flags: TIMER_ABSTIME });
    block_on(&mut mgr, 9, ProcessBlock::Poll { deadline_nanos: Some(50) });
    block_on(&mut mgr, 4, ProcessBlock::Futex { key: FutexKey::shared(8), bitset: 1, deadline_nanos: Some(50) });
    assert_eq!(mgr.next_timer_deadline_nanos(), Some(50));
    assert!(!mgr.timer_deadline_due(49));
    assert!(mgr.timer_deadline_due(50));
    let mut runnable = Vec::new();
    mgr.wake_expired_timers(60, &mut runnable);
    assert_eq!(runnable, vec![(4, 0), (9, 0)]);
    assert_eq!(mgr.task(9).unwrap().wake_result, Some(BlockResult::Poll { timed_out: true }));
    assert_eq!(mgr.task(4).unwrap().wake_result, Some(BlockResult::Futex { woke: false, timed_out: true }));
    assert_eq!(mgr.next_timer_deadline_nanos(), Some(100));
    mgr.wake_expired_timers(200, &mut runnable);
    assert_eq!(runnable, vec![(4, 0), (9, 0), (8, 0)]);
    assert_eq!(
        mgr.task(8).unwrap().wake_result,
        Some(BlockResult::Timer { completed: true, remaining_nanos: 0, rmtp: 0x40, is_absolute: true })
    );
    assert_eq!(mgr.next_timer_deadline_nanos(), None);
}

#[test]
fn ready_files_wake_their_waiters_once() {
    let mut mgr = ProcessManager::new();
    block_on(&mut mgr, 3, ProcessBlock::File { fd: 4, events: 1 });
    block_on(&mut mgr, 1, ProcessBlock::Poll { deadline_nanos: None });
    block_on(&mut mgr, 2, ProcessBlock::SignalSuspend);
    let mut runnable = Vec::new();
    mgr.wake_ready_file_blocks(&vec![3, 2, 1, 3], &mut runnable);
    assert_eq!(runnable, vec![(1, 0), (3, 0)]);
    assert_eq!(mgr.task(3).unwrap().wake_result, Some(BlockResult::File { ready: true }));
    assert_eq!(mgr.task(1).unwrap().wake_result, Some(BlockResult::Poll { timed_out: false }));
    assert_eq!(mgr.task(2).unwrap().state, ProcessState::Blocked(ProcessBlock::SignalSuspend));

    let mut runnable = Vec::new();
    let t = entry(5, 5, None, 5, 5, ProcessState::Blocked(ProcessBlock::File { fd: 0, events: 1 }));
    assert_eq!(mgr.requeue_process(t, Some(BlockResult::File { ready: true }), &mut runnable), None);
    assert_eq!(runnable, vec![(5, 0)]);
    let exited = entry(6, 6, None, 6, 6, ProcessState::Exited(3));
    assert_eq!(mgr.requeue_process(exited, None, &mut runnable), Some(3));
}

#[test]
fn setpgid_rules() {
    let mut mgr = ProcessManager::new();
    let mut runnable = Vec::new();
    let running = Vec::new();
    let child = entry(11, 11, Some(10), 10, 10, ProcessState::Runnable);
    mgr.insert_cloned_process(child, &mut runnable);
    let mut parent = entry(10, 10, None, 10, 10, ProcessState::Running);

    assert_eq!(mgr.setpgid(&mut parent, 0, 0, &running), Err(SysErr::Perm));
    assert_eq!(mgr.setpgid(&mut parent, 99, 0, &running), Err(SysErr::Srch));
    assert_eq!(mgr.setpgid(&mut parent, 11, 0, &running), Ok(0));
    assert_eq!(mgr.task(11).unwrap().identity.process_group, 11);
    assert_eq!(mgr.process_group_session(11, &running), Some(10));
    assert!(mgr.has_process_group(11, &running));
    assert!(!mgr.has_process_group(10, &running));
    assert_eq!(mgr.setpgid(&mut parent, 11, 77, &running), Err(SysErr::Perm));

    let mut member = entry(12, 12, Some(10), 11, 10, ProcessState::Running);
    assert_eq!(mgr.setpgid(&mut member, 0, 0, &running), Ok(0));
    assert_eq!(member.identity.process_group, 12);
    assert_eq!(mgr.setpgid(&mut member, 0, 11, &running), Ok(0));
    assert_eq!(member.identity.process_group, 11);
}

#[test]
fn a_waiting_parent_is_woken_by_its_child() {
    let mut mgr = ProcessManager::new();
    let mut runnable = Vec::new();
    let running = Vec::new();
    let wait = ProcessBlock::WaitChild {
        selector: WaitChildSelector::Any,
        api: WaitChildApi::Wait4,
        status_ptr: 0x1000,
        info_ptr: 0,
        options: 0,
    };
    mgr.insert_cloned_process(entry(10, 10, None, 10, 10, ProcessState::Runnable), &mut runnable);
    let mut parent = mgr.task(10).unwrap();
    parent.state = ProcessState::Blocked(wait);
    mgr.requeue_process(parent, None, &mut runnable);
    mgr.insert_cloned_process(entry(11, 11, Some(10), 10, 10, ProcessState::Runnable), &mut runnable);
    runnable.clear();

    let child = entry(11, 11, Some(10), 10, 10, ProcessState::Exited(3));
    let notice = mgr.reap_exited_process(child, 3, None, None, &running, &mut runnable);
    assert_eq!(notice.parent_signal, Some((10, SignalInfo::child_exit(11, 3))));
    assert_eq!(notice.status_write, Some((0x1000, 3 << 8)));
    assert!(!notice.reaped);
    assert_eq!(runnable, vec![(10, 0)]);
    let woken = mgr.task(10).unwrap();
    assert_eq!(woken.wake_result, Some(BlockResult::CompletedValue { value: 11 }));
    assert!(!mgr.has_waitable_child(10, WaitChildSelector::Any, &running));
    assert_eq!(mgr.wait_child_event(10, WaitChildSelector::Any, 0, true, &running), None);
}

#[test]
fn child_events_queue_until_waited_for() {
    let mut mgr = ProcessManager::new();
    let mut runnable = Vec::new();
    let running = Vec::new();
    mgr.insert_cloned_process(entry(10, 10, None, 10, 10, ProcessState::Runnable), &mut runnable);
    mgr.insert_cloned_process(entry(11, 11, Some(10), 10, 10, ProcessState::Runnable), &mut runnable);
    let stop = ChildEvent { pid: 11, kind: ChildEventKind::Stopped(19) };
    let notice = mgr.notify_child_event(Some(10), stop, None, &running, &mut runnable);
    assert_eq!(notice.signal, Some(SignalInfo::child_stop(11, 19)));
    assert_eq!(notice.status_write, None);
    let quiet = SignalAction { handler: 0, flags: SA_NOCLDSTOP, restorer: 0, mask: 0 };
    let notice = mgr.notify_child_event(Some(10), ChildEvent { pid: 11, kind: ChildEventKind::Continued }, Some(quiet), &running, &mut runnable);
    assert_eq!(notice.signal, None);

    assert_eq!(mgr.wait_child_event(10, WaitChildSelector::Any, 0, true, &running), None);
    assert_eq!(mgr.wait_child_event(10, WaitChildSelector::Pid(11), WUNTRACED, false, &running), Some(stop));
    assert_eq!(mgr.wait_child_event(10, WaitChildSelector::Pid(11), WUNTRACED, true, &running), Some(stop));
    assert_eq!(mgr.wait_child_event(10, WaitChildSelector::Any, WUNTRACED, true, &running), None);

    let child = entry(11, 11, Some(10), 10, 10, ProcessState::Exited(0));
    let notice = mgr.reap_exited_process(child, 0, None, None, &running, &mut runnable);
    assert!(!notice.reaped);
    assert!(mgr.has_waitable_child(10, WaitChildSelector::ProcessGroup(10), &running));
    assert_eq!(
        mgr.wait_child_event(10, WaitChildSelector::Any, 0, true, &running),
        Some(ChildEvent { pid: 11, kind: ChildEventKind::Exited(0) })
    );
    assert!(!mgr.has_waitable_child(10, WaitChildSelector::Any, &running));
}

#[test]
fn an_ignored_sigchld_reaps_at_once() {
    let mut mgr = ProcessManager::new();
    let mut runnable = Vec::new();
    let running = Vec::new();
    mgr.insert_cloned_process(entry(10, 10, None, 10, 10, ProcessState::Runnable), &mut runnable);
    mgr.insert_cloned_process(entry(11, 11, Some(10), 10, 10, ProcessState::Runnable), &mut runnable);
    let ignore = SignalAction { handler: SIG_IGN, flags: 0, restorer: 0, mask: 0 };
    let child = entry(11, 11, Some(10), 10, 10, ProcessState::Exited(1));
    let notice = mgr.reap_exited_process(child, 1, None, Some(ignore), &running, &mut runnable);
    assert!(notice.reaped);
    assert_eq!(notice.parent_signal, None);
    assert!(!mgr.has_waitable_child(10, WaitChildSelector::Any, &running));
    assert!(!mgr.has_thread_group(11));
}

#[test]
fn vfork_parents_and_group_exits() {
    let mut mgr = ProcessManager::new();
    let mut runnable = Vec::new();
    block_on(&mut mgr, 1, ProcessBlock::Vfork { child: 2 });
    mgr.wake_vfork_parent(1, 3, &mut runnable);
    assert!(runnable.is_empty());
    mgr.wake_vfork_parent(1, 2, &mut runnable);
    assert_eq!(runnable, vec![(1, 0)]);
    assert_eq!(mgr.task(1).unwrap().wake_result, Some(BlockResult::CompletedValue { value: 2 }));

    let mut runnable = Vec::new();
    mgr.insert_cloned_process(entry(20, 20, None, 20, 20, ProcessState::Runnable), &mut runnable);
    let mut t21 = entry(21, 20, None, 20, 20, ProcessState::Runnable);
    mgr.insert_cloned_process(t21, &mut runnable);
    t21.state = ProcessState::Blocked(ProcessBlock::Timer { target_nanos: 900, request_nanos: 900, rmtp: 0, flags: 0 });
    mgr.requeue_process(t21, None, &mut runnable);
    assert_eq!(mgr.next_timer_deadline_nanos(), Some(900));
    runnable.clear();
    mgr.begin_thread_group_exit(20, 20, 9, &mut runnable);
    assert_eq!(runnable, vec![(21, 0)]);
    let t = mgr.task(21).unwrap();
    assert_eq!(t.state, ProcessState::Runnable);
    assert_eq!(t.wake_result, Some(BlockResult::SignalInterrupted));
    assert_eq!(mgr.next_timer_deadline_nanos(), None);
}

#[test]
fn signals_interrupt_waits_and_sigcont_resumes() {
    let mut mgr = ProcessManager::new();
    let running = vec![RunningTask { pid: 40, thread_group: 40, process_group: 40, cpu: 3 }];
    block_on(&mut mgr, 1, ProcessBlock::Timer { target_nanos: 1000, request_nanos: 1000, rmtp: 0x8, flags: 0 });
    block_on(&mut mgr, 2, ProcessBlock::SignalSuspend);
    block_on(&mut mgr, 3, ProcessBlock::Poll { deadline_nanos: Some(700) });
    let mut runnable = Vec::new();

    let w = mgr.notify_signal(1, 10, false, 400, None, &running, &mut runnable);
    assert!(!w.leave_sigsuspend && w.continued.is_none());
    assert!(runnable.is_empty());
    let w = mgr.notify_signal(1, 10, true, 400, None, &running, &mut runnable);
    assert!(!w.leave_sigsuspend);
    assert_eq!(
        mgr.task(1).unwrap().wake_result,
        Some(BlockResult::Timer { completed: false, remaining_nanos: 600, rmtp: 0x8, is_absolute: false })
    );
    let w = mgr.notify_signal(2, 10, true, 400, None, &running, &mut runnable);
    assert!(w.leave_sigsuspend);
    assert_eq!(mgr.task(2).unwrap().wake_result, Some(BlockResult::SignalInterrupted));
    assert_eq!(mgr.next_timer_deadline_nanos(), Some(700));
    let info = SignalInfo::kernel(10, 0);
    match mgr.send_signal(3, info, true, 400, None, &running, &mut runnable) {
        SendResult::Notified(_) => {},
        other => panic!("{:?}", other),
    }
    assert_eq!(runnable, vec![(1, 0), (2, 0), (3, 0)]);
    assert_eq!(mgr.next_timer_deadline_nanos(), None);

    match mgr.send_signal(40, info, true, 400, None, &running, &mut runnable) {
        SendResult::Queued(cpu) => assert_eq!(cpu, 3),
        other => panic!("{:?}", other),
    }
    match mgr.send_signal(41, info, true, 400, None, &running, &mut runnable) {
        SendResult::Dropped => {},
        other => panic!("{:?}", other),
    }
    assert_eq!(mgr.drain_queued_signals(40), vec![info]);
    assert!(mgr.drain_queued_signals(40).is_empty());

    let mut runnable = Vec::new();
    mgr.insert_cloned_process(entry(10, 10, None, 10, 10, ProcessState::Runnable), &mut runnable);
    let stopped = entry(11, 11, Some(10), 10, 10, ProcessState::Stopped(19));
    mgr.requeue_process(stopped, None, &mut runnable);
    runnable.clear();
    let w = mgr.notify_signal(11, SIGCONT, false, 0, None, &running, &mut runnable);
    assert_eq!(w.continued.unwrap().signal, Some(SignalInfo::child_continue(11)));
    assert_eq!(runnable, vec![(11, 0)]);
    assert_eq!(mgr.task(11).unwrap().state, ProcessState::Runnable);
    assert_eq!(
        mgr.wait_child_event(10, WaitChildSelector::Any, lib::process::util::WCONTINUED, true, &running),
        Some(ChildEvent { pid: 11, kind: ChildEventKind::Continued })
    );
}

#[test]
fn signal_targets_by_group() {
    let mut mgr = ProcessManager::new();
    let mut runnable = Vec::new();
    let running = vec![RunningTask { pid: 31, thread_group: 30, process_group: 5, cpu: 1 }];
    mgr.insert_cloned_process(entry(1, 1, None, 1, 1, ProcessState::Runnable), &mut runnable);
    mgr.insert_cloned_process(entry(20, 20, Some(1), 5, 1, ProcessState::Runnable), &mut runnable);
    let mut blocked = entry(21, 20, Some(1), 5, 1, ProcessState::Runnable);
    blocked.blocked_signals = 1 << 9;
    mgr.insert_cloned_process(blocked, &mut runnable);
    mgr.insert_cloned_process(entry(30, 30, Some(1), 6, 1, ProcessState::Runnable), &mut runnable);
    assert_eq!(mgr.process_group_signal_targets(5, &running), vec![20]);
    assert_eq!(mgr.process_group_signal_targets(6, &running), vec![30]);
    assert_eq!(mgr.all_thread_group_targets(None), vec![20, 30]);
    assert_eq!(mgr.all_thread_group_targets(Some(20)), vec![30]);
    assert_eq!(mgr.thread_group_signal_target(20, 10, &running), Some(20));
    assert_eq!(mgr.thread_group_signal_target(99, 10, &running), None);
}

#[test]
fn fault_signals_and_finished_syscalls() {
    let mut mgr = ProcessManager::new();
    let mut runnable = Vec::new();
    let handler = SignalAction { handler: 0x4000, flags: 0, restorer: 0, mask: 0 };
    let mut t = entry(5, 5, None, 5, 5, ProcessState::Running);
    assert!(mgr.queue_synchronous_fault_signal(&mut t, 11, Some(handler), true, &mut runnable));
    assert_eq!(t.state, ProcessState::Runnable);
    t.blocked_signals = 1 << 10;
    assert!(!mgr.queue_synchronous_fault_signal(&mut t, 11, Some(handler), true, &mut runnable));
    assert_eq!(t.state, ProcessState::Exited(139));
    let mut t = entry(6, 6, None, 6, 6, ProcessState::Running);
    assert!(!mgr.queue_synchronous_fault_signal(&mut t, 8, None, true, &mut runnable));
    assert_eq!(t.state, ProcessState::Exited(136));

    let t = entry(7, 7, None, 7, 7, ProcessState::Running);
    let done = mgr.finish_syscall_dispatch(t, SyscallDisposition::Return(Err(SysErr::Again)), false, None, &mut runnable);
    assert_eq!(done, SyscallFinish { commit_exec: false, return_value: Some((-11i64) as u64), exited: None });
    assert_eq!(runnable, vec![(7, 0)]);
    let t = entry(8, 8, None, 8, 8, ProcessState::Running);
    let done = mgr.finish_syscall_dispatch(t, SyscallDisposition::Return(Ok(0)), true, None, &mut runnable);
    assert_eq!(done, SyscallFinish { commit_exec: true, return_value: None, exited: None });
    let t = entry(9, 9, None, 9, 9, ProcessState::Running);
    let done = mgr.finish_syscall_dispatch(t, SyscallDisposition::Exit(4), false, None, &mut runnable);
    assert_eq!(done.exited, Some(4));
    let t = entry(12, 12, None, 12, 12, ProcessState::Running);
    let block = ProcessBlock::Timer { target_nanos: 50, request_nanos: 50, rmtp: 0, flags: 0 };
    let done = mgr.finish_syscall_dispatch(t, SyscallDisposition::Block(block), false, None, &mut runnable);
    assert_eq!(done, SyscallFinish { commit_exec: false, return_value: None, exited: None });
    assert_eq!(mgr.task(12).unwrap().state, ProcessState::Blocked(block));
    assert_eq!(mgr.next_timer_deadline_nanos(), Some(50));
}

#[test]
fn clone_plans_follow_the_flags() {
    let mut mgr = ProcessManager::new();
    let mut runnable = Vec::new();
    mgr.spawn_task(None, 0, &mut runnable);
    let mut parent = entry(1, 1, None, 1, 1, ProcessState::Runnable);
    parent.blocked_signals = 0b100;
    let mut prctl = PrctlState::for_exec_path("/bin/sh");
    prctl.parent_death_signal = 9;
    prctl.child_subreaper = true;
    let loads = vec![Some(3), Some(0), Some(5)];
    let running = Vec::new();

    let fork = CloneParams { flags: 0, exit_signal: 17, child_stack_pointer: None, parent_tid: None, child_tid: None, tls: None };
    let plan = mgr.prepare_clone(&parent, prctl, fork, None, &loads, 0, &running).unwrap();
    assert_eq!(plan.child.identity, ProcessIdentity { pid: 2, thread_group: 2, parent: Some(1), process_group: 1, session: 1 });
    assert_eq!(plan.child.state, ProcessState::Runnable);
    assert_eq!(plan.child.assigned_cpu, 1);
    assert_eq!(plan.child.blocked_signals, 0b100);
    assert_eq!(plan.exit_signal, 17);
    assert_eq!(plan.prctl.parent_death_signal, 0);
    assert!(!plan.prctl.child_subreaper);
    assert_eq!(plan.prctl.name, prctl.name);
    assert_eq!(plan.vfork_parent, None);
    assert_eq!(plan.tls, None);

    let thread = CloneParams {
        flags: CLONE_VM | CLONE_SIGHAND | CLONE_THREAD | CLONE_SETTLS | CLONE_VFORK,
        exit_signal: 0,
        child_stack_pointer: Some(0x7000),
        parent_tid: None,
        child_tid: None,
        tls: Some(0x9000),
    };
    let plan = mgr.prepare_clone(&parent, prctl, thread, Some(40), &loads, 0, &running).unwrap();
    assert_eq!(plan.child.identity, ProcessIdentity { pid: 40, thread_group: 1, parent: None, process_group: 1, session: 1 });
    assert_eq!(plan.child.assigned_cpu, 0);
    assert_eq!(plan.exit_signal, 0);
    assert_eq!(plan.vfork_parent, Some(1));
    assert_eq!(plan.tls, Some(0x9000));
    assert_eq!(plan.child_stack_pointer, Some(0x7000));

    let bad = CloneParams { flags: CLONE_THREAD, exit_signal: 0, child_stack_pointer: None, parent_tid: None, child_tid: None, tls: None };
    assert_eq!(mgr.prepare_clone(&parent, prctl, bad, None, &loads, 0, &running).err(), Some(SysErr::Inval));
    let taken = CloneParams { flags: 0, exit_signal: 17, child_stack_pointer: None, parent_tid: None, child_tid: None, tls: None };
    assert_eq!(mgr.prepare_clone(&parent, prctl, taken, Some(1), &loads, 0, &running).err(), Some(SysErr::Exists));
}

fn taken(take: DispatchTake) -> (TaskEntry, Vec<SignalInfo>, bool) {
    match take {
        DispatchTake::Taken(t, signals, exiting) => (t, signals, exiting),
        _ => panic!("the task was not taken"),
    }
}

#[test]
fn dispatch_takes_tasks_and_settles_their_signals() {
    let mut mgr = ProcessManager::new();
    let mut runnable = Vec::new();
    let none = Vec::new();
    mgr.spawn_task(None, 0, &mut runnable);
    mgr.spawn_task(Some(1), 0, &mut runnable);
    mgr.spawn_task(None, 1, &mut runnable);
    mgr.spawn_task(Some(1), 0, &mut runnable);

    let mut queue = Vec::new();
    assert!(matches!(mgr.take_for_dispatch(9, 0, &mut queue), DispatchTake::Missing));
    match mgr.take_for_dispatch(3, 0, &mut queue) {
        DispatchTake::OtherCpu(signals) => assert!(signals.is_empty()),
        _ => panic!("task 3 belongs to CPU 1"),
    }
    assert_eq!(queue, vec![(3, 1)]);

    let (t2, signals, exiting) = taken(mgr.take_for_dispatch(2, 0, &mut queue));
    assert!(signals.is_empty() && !exiting);
    assert_eq!(mgr.task(2), None);
    match mgr.settle_dispatch(t2, false, SignalDelivery::Nothing, false, None, None, 0, &none, &mut queue) {
        DispatchOutcome::Run(t) => assert_eq!(t.state, ProcessState::Running),
        _ => panic!("task 2 runs"),
    }

    let running = vec![RunningTask { pid: 2, thread_group: 2, process_group: 2, cpu: 0 }];
    let term = SignalInfo::kernel(SIGTERM, 0);
    assert!(matches!(mgr.send_signal(2, term, false, 0, None, &running, &mut queue), SendResult::Queued(0)));
    assert_eq!(mgr.requeue_process(t2, None, &mut queue), None);
    let (t2, signals, _) = taken(mgr.take_for_dispatch(2, 0, &mut queue));
    assert_eq!(signals, vec![term]);
    match mgr.settle_dispatch(t2, false, SignalDelivery::Exit(term), false, None, None, 0, &none, &mut queue) {
        DispatchOutcome::Exited(status, notice) => {
            assert_eq!(status, 143);
            assert_eq!(notice.parent_signal, Some((1, SignalInfo::child_exit(2, 143))));
            assert!(!notice.reaped);
        },
        _ => panic!("task 2 exits"),
    }

    let (t4, _, _) = taken(mgr.take_for_dispatch(4, 0, &mut queue));
    let stop = SignalInfo::kernel(SIGSTOP, 0);
    let stopped = match mgr.settle_dispatch(t4, false, SignalDelivery::Stop(stop), false, None, None, 0, &none, &mut queue) {
        DispatchOutcome::Stopped(t, notice) => {
            assert_eq!(t.state, ProcessState::Stopped(SIGSTOP));
            assert_eq!(notice.signal.map(|s| s.signal), Some(SIGCHLD));
            t
        },
        _ => panic!("task 4 stops"),
    };
    assert_eq!(mgr.task(4), None);
    assert_eq!(mgr.requeue_process(stopped, None, &mut queue), None);
    let (t4, _, _) = taken(mgr.take_for_dispatch(4, 0, &mut queue));
    let cont = SignalInfo::kernel(SIGCONT, 0);
    assert!(matches!(
        mgr.settle_dispatch(t4, false, SignalDelivery::Continue(cont), false, None, None, 0, &none, &mut queue),
        DispatchOutcome::Continued(_)
    ));
    assert_eq!(mgr.task(4).unwrap().state, ProcessState::Runnable);
    assert_eq!(queue.last(), Some(&(4, 0)));

    let (t4, _, _) = taken(mgr.take_for_dispatch(4, 0, &mut queue));
    match mgr.settle_dispatch(t4, true, SignalDelivery::Exit(term), false, None, None, 0, &none, &mut queue) {
        DispatchOutcome::ResumeSyscall(t) => assert_eq!(t.state, ProcessState::Running),
        _ => panic!("task 4 resumes its system call"),
    }

    let thread = entry(10, 1, None, 1, 1, ProcessState::Runnable);
    mgr.insert_cloned_process(thread, &mut queue);
    let (t10, _, _) = taken(mgr.take_for_dispatch(10, 0, &mut queue));
    let kill = SignalInfo::kernel(SIGKILL, 0);
    assert!(matches!(
        mgr.settle_dispatch(t10, false, SignalDelivery::Exit(kill), false, None, None, 0, &none, &mut queue),
        DispatchOutcome::Exited(137, _)
    ));
    let (t1, _, exiting) = taken(mgr.take_for_dispatch(1, 0, &mut queue));
    assert!(exiting);
    assert!(matches!(
        mgr.settle_dispatch(t1, false, SignalDelivery::Nothing, false, None, None, 0, &none, &mut queue),
        DispatchOutcome::Exited(137, _)
    ));

    let (t3, _, _) = taken(mgr.take_for_dispatch(3, 1, &mut queue));
    let (status, notice) = mgr.fail_child_return(t3, None, None, &none, &mut queue);
    assert_eq!(status, 139);
    assert!(notice.reaped);
}

#[test]
fn returns_from_running_are_settled_by_cause() {
    let mut mgr = ProcessManager::new();
    let mut queue = Vec::new();
    let mut actions = SignalActions::new();
    let t = entry(5, 5, None, 5, 5, ProcessState::Running);
    let exception = |vector: u8, error_code: u64, resolved: bool| RunExit::Exception {
        details: UserExceptionDetails { vector, error_code, fault_address: 0x1000, instruction_pointer: 0x400000 },
        resolved,
    };

    let r = mgr.settle_run(t, RunExit::Interrupt(32), &actions, &mut queue);
    assert_eq!(r.event, RunEvent::Interrupted(32));
    assert_eq!((r.fault_signal, r.exited), (None, None));
    assert_eq!(mgr.task(5).unwrap().state, ProcessState::Runnable);
    assert_eq!(queue, vec![(5, 0)]);

    let r = mgr.settle_run(t, exception(14, 6, true), &actions, &mut queue);
    assert_eq!(r.event, RunEvent::Interrupted(14));
    assert_eq!(r.exited, None);

    let r = mgr.settle_run(t, exception(14, 6, false), &actions, &mut queue);
    assert_eq!(r.event, RunEvent::Interrupted(14));
    assert_eq!((r.fault_signal, r.exited), (None, Some(128 + SIGSEGV as i32)));

    let handler = SignalAction { handler: 0x401000, flags: 0, restorer: 0, mask: 0 };
    assert!(actions.set_action(SIGFPE, handler));
    let r = mgr.settle_run(t, exception(0, 0, false), &actions, &mut queue);
    assert_eq!(r.event, RunEvent::Interrupted(0));
    assert_eq!(r.fault_signal, Some(SignalInfo::kernel(SIGFPE, 0)));
    assert_eq!(r.exited, None);

    let mut gone = Vec::new();
    let mut other = ProcessManager::new();
    let r = other.settle_run(t, exception(2, 0, false), &actions, &mut gone);
    assert_eq!(r.event, RunEvent::Faulted(2, 0));
    assert_eq!(r.exited, None);
    assert_eq!(other.task(5), None);
    assert!(gone.is_empty());
}
