use lib::errno::SysErr;
use lib::signal::abi::{
    parse_sigaction, parse_signal_stack, serialize_sigaction, serialize_signal_stack, sigbit,
    signal_altstack_validate_new, SignalAction, SignalInfo, SignalStack, CLD_CONTINUED,
    CLD_EXITED, CLD_KILLED, CLD_STOPPED, MINSIGSTKSZ, SA_ONSTACK, SIGCHLD, SIGCONT, SIGINT,
    SIGKILL, SIGSEGV, SIGSTOP, SIGTERM, SIGTSTP, SIGUSR1, SIGWINCH, SIG_BLOCK, SIG_DFL, SIG_IGN,
    SIG_SETMASK, SIG_UNBLOCK, SS_AUTODISARM, SS_DISABLE, SS_ONSTACK,
};
use lib::signal::delivery::{default_action, delivery_for, SignalDefault, SignalDelivery};
use lib::signal::state::{SignalActions, SignalState};

fn handler(address: u64) -> SignalAction {
    SignalAction { handler: address, flags: 0, restorer: 0, mask: 0 }
}

#[test]
fn child_signal_records() {
    let exited = SignalInfo::child_exit(42, 3);
    assert_eq!((exited.signal, exited.code, exited.status, exited.pid), (SIGCHLD, CLD_EXITED, 3, 42));
    let killed = SignalInfo::child_exit(42, 128 + 9);
    assert_eq!((killed.code, killed.status), (CLD_KILLED, 9));
    assert_eq!(SignalInfo::child_stop(7, SIGTSTP).code, CLD_STOPPED);
    assert_eq!(SignalInfo::child_stop(7, SIGTSTP).status, SIGTSTP as i32);
    assert_eq!(SignalInfo::child_continue(7).code, CLD_CONTINUED);
    assert_eq!(SignalInfo::kernel(SIGSEGV, 1), SignalInfo { signal: SIGSEGV, code: 1, status: 0, pid: 0, uid: 0 });
}

#[test]
fn default_actions() {
    assert_eq!(default_action(SIGCHLD), SignalDefault::Ignore);
    assert_eq!(default_action(SIGWINCH), SignalDefault::Ignore);
    assert_eq!(default_action(SIGSTOP), SignalDefault::Stop);
    assert_eq!(default_action(SIGTSTP), SignalDefault::Stop);
    assert_eq!(default_action(SIGCONT), SignalDefault::Continue);
    assert_eq!(default_action(SIGTERM), SignalDefault::Terminate);
    assert_eq!(default_action(SIGKILL), SignalDefault::Terminate);
}

#[test]
fn delivery_decisions() {
    let info = SignalInfo::kernel(SIGUSR1, 0);
    let dfl = handler(SIG_DFL);
    assert_eq!(delivery_for(sigbit(SIGUSR1), dfl, info, true), SignalDelivery::Nothing);
    assert_eq!(delivery_for(0, handler(SIG_IGN), info, true), SignalDelivery::Ignored(info));
    assert_eq!(delivery_for(0, handler(0x4000), info, true), SignalDelivery::Deliver(info, handler(0x4000)));
    assert_eq!(delivery_for(0, handler(0x4000), info, false), SignalDelivery::Exit(info));
    assert_eq!(delivery_for(0, dfl, info, true), SignalDelivery::Exit(info));
    let stop = SignalInfo::kernel(SIGSTOP, 0);
    assert_eq!(delivery_for(0, dfl, stop, true), SignalDelivery::Stop(stop));
    let kill = SignalInfo::kernel(SIGKILL, 0);
    assert_eq!(delivery_for(u64::MAX, dfl, kill, true), SignalDelivery::Exit(kill));
}

#[test]
fn signal_bits() {
    assert_eq!(sigbit(1), 1);
    assert_eq!(sigbit(SIGINT), 2);
    assert_eq!(sigbit(64), 1u64 << 63);
    assert_eq!(sigbit(0), 0);
    assert_eq!(sigbit(65), 0);
}

#[test]
fn sigaction_records_roundtrip() {
    let action = SignalAction { handler: 0x401000, flags: SA_ONSTACK, restorer: 0x402000, mask: 0xff };
    let bytes = serialize_sigaction(action);
    assert_eq!(bytes.len(), 32);
    assert_eq!(&bytes[0..8], &0x401000u64.to_le_bytes());
    assert_eq!(parse_sigaction(&bytes), Some(action));
    assert_eq!(parse_sigaction(&bytes[..31]), None);
}

#[test]
fn signal_stack_records_roundtrip() {
    let stack = SignalStack { ss_sp: 0x7000, ss_flags: SS_AUTODISARM, _pad: 0, ss_size: 8192 };
    let bytes = serialize_signal_stack(stack);
    assert_eq!(parse_signal_stack(&bytes), Some(stack));
    assert_eq!(parse_signal_stack(&bytes[..23]), None);
}

#[test]
fn alternate_stack_validation() {
    let ok = SignalStack { ss_sp: 0x1000, ss_flags: 0, _pad: 0, ss_size: MINSIGSTKSZ };
    assert_eq!(signal_altstack_validate_new(&ok), Ok(()));
    let small = SignalStack { ss_size: MINSIGSTKSZ - 1, ..ok };
    assert_eq!(signal_altstack_validate_new(&small), Err(SysErr::NoMem));
    let bad_flags = SignalStack { ss_flags: 0x10, ..ok };
    assert_eq!(signal_altstack_validate_new(&bad_flags), Err(SysErr::Inval));
    let disabled = SignalStack { ss_flags: SS_DISABLE, ss_size: 0, ..ok };
    assert_eq!(signal_altstack_validate_new(&disabled), Ok(()));
}

#[test]
fn sigaltstack_reports_and_refuses_while_on_it() {
    let mut state = SignalState::new();
    assert_eq!(state.altstack(0).ss_flags, SS_DISABLE);
    let stack = SignalStack { ss_sp: 0x10000, ss_flags: 0, _pad: 0, ss_size: 0x4000 };
    assert!(state.set_altstack(Some(stack), 0x9000).is_ok());
    assert_eq!(state.altstack(0x9000).ss_flags, 0);
    assert_eq!(state.altstack(0x11000).ss_flags, SS_ONSTACK);
    assert_eq!(state.set_altstack(Some(stack), 0x11000), Err(SysErr::Perm));
    assert!(state.should_use_altstack_for_signal(SA_ONSTACK, 0x9000));
    assert!(!state.should_use_altstack_for_signal(SA_ONSTACK, 0x11000));
    assert!(!state.should_use_altstack_for_signal(0, 0x9000));
}

#[test]
fn kill_and_stop_cannot_be_blocked() {
    let mut state = SignalState::new();
    state.set_mask(SIG_SETMASK, u64::MAX);
    assert_eq!(state.blocked() & sigbit(SIGKILL), 0);
    assert_eq!(state.blocked() & sigbit(SIGSTOP), 0);
    assert_ne!(state.blocked() & sigbit(SIGINT), 0);
    state.set_mask(SIG_UNBLOCK, sigbit(SIGINT));
    assert_eq!(state.blocked() & sigbit(SIGINT), 0);
    state.set_mask(SIG_BLOCK, sigbit(SIGINT));
    assert_ne!(state.blocked() & sigbit(SIGINT), 0);
    let before = state.blocked();
    state.set_mask(99, 0);
    assert_eq!(state.blocked(), before);
}

#[test]
fn pending_signals_come_out_lowest_first() {
    let mut state = SignalState::new();
    let actions = SignalActions::new();
    assert!(state.enqueue(SignalInfo::kernel(SIGTERM, 0)));
    assert!(state.enqueue(SignalInfo::kernel(SIGINT, 0)));
    assert!(!state.enqueue(SignalInfo::kernel(0, 0)));
    assert!(state.has_unblocked_pending());
    assert_eq!(state.take_next_delivery(&actions, true), SignalDelivery::Exit(SignalInfo::kernel(SIGINT, 0)));
    assert_eq!(state.take_next_delivery(&actions, true), SignalDelivery::Exit(SignalInfo::kernel(SIGTERM, 0)));
    assert_eq!(state.take_next_delivery(&actions, true), SignalDelivery::Nothing);
}

#[test]
fn continue_discards_pending_stops() {
    let mut state = SignalState::new();
    let actions = SignalActions::new();
    state.enqueue(SignalInfo::kernel(SIGTSTP, 0));
    state.enqueue(SignalInfo::kernel(SIGCONT, 0));
    assert_eq!(state.take_next_delivery(&actions, true), SignalDelivery::Continue(SignalInfo::kernel(SIGCONT, 0)));
    assert_eq!(state.take_next_delivery(&actions, true), SignalDelivery::Nothing);
}

#[test]
fn sigsuspend_swaps_the_mask() {
    let mut state = SignalState::new();
    state.set_mask(SIG_SETMASK, sigbit(SIGUSR1));
    state.enter_sigsuspend(0);
    assert_eq!(state.blocked(), 0);
    state.leave_sigsuspend();
    assert_eq!(state.blocked(), sigbit(SIGUSR1));
}

#[test]
fn sigtimedwait_takes_from_the_mask() {
    let mut state = SignalState::new();
    state.enqueue(SignalInfo::kernel(SIGUSR1, 0));
    assert!(state.has_pending_in_mask(sigbit(SIGUSR1)));
    assert!(!state.has_pending_in_mask(sigbit(SIGINT)));
    assert_eq!(state.take_pending_in_mask(sigbit(SIGUSR1)), Some(SignalInfo::kernel(SIGUSR1, 0)));
    assert_eq!(state.take_pending_in_mask(sigbit(SIGUSR1)), None);
}

#[test]
fn kill_and_stop_keep_their_default_action() {
    let mut actions = SignalActions::new();
    assert!(!actions.set_action(SIGKILL, handler(0x1000)));
    assert!(!actions.set_action(SIGSTOP, handler(0x1000)));
    assert!(!actions.set_action(0, handler(0x1000)));
    assert!(actions.set_action(SIGUSR1, handler(0x1000)));
    assert!(actions.set_action(SIGINT, handler(SIG_IGN)));
    assert_eq!(actions.action(SIGUSR1), Some(handler(0x1000)));
    actions.reset_caught();
    assert_eq!(actions.action(SIGUSR1), Some(handler(SIG_DFL)));
    assert_eq!(actions.action(SIGINT), Some(handler(SIG_IGN)));
    assert_eq!(actions.action(65), None);
}
