use lib::arch::context::{ArchContext, GeneralRegs, UserContext};
use lib::arch::exception::{classify_user_exception, PageFaultAccessType, UserExceptionClass, UserExceptionDetails};
use lib::arch::x86_64::exception::exception_signal;
use lib::arch::x86_64::signal::{
    build_ucontext, decode_ucontext, deliver_signal_to_user, restore_signal_from_user, serialize_ucontext, SignalFrameError,
    UCONTEXT_SIZE,
};
use lib::credentials::Credentials;
use lib::errno::SysErr;
use lib::process::clone::{CloneParams, LinuxCloneArgs, CLONE_SETTLS, CLONE_SIGHAND, CLONE_THREAD, CLONE_VFORK, CLONE_VM};
use lib::process::util::{child_event_matches_options, decode_sigset, parse_iovec_array, wait_status, UserIoVec, WCONTINUED, WUNTRACED};
use lib::process::{ChildEventKind, FutexKey, FutexScope, PrctlState, ProcessIdentity};
use lib::signal::abi::{SignalAction, SignalInfo, SA_RESTORER, SA_SIGINFO, SIGFPE, SIGILL, SIGSEGV, SIGTRAP, SIGUSR1};

fn context(rsp: u64) -> UserContext {
    let general = GeneralRegs {
        rax: 60, rbx: 2, rcx: 3, rdx: 4, rsi: 5, rdi: 6, rbp: 7, rsp, r8: 8, r9: 9, r10: 10,
        r11: 11, r12: 12, r13: 13, r14: 14, r15: 15, rip: 0x401000, rflags: 0x202,
    };
    UserContext { general, trap_num: 0, error_code: 0, fs_base: 0, gs_base: 0 }
}

#[test]
fn syscall_registers() {
    let mut ctx = context(0x7fff_0000);
    assert_eq!(ctx.syscall_number(), 60);
    assert_eq!(ctx.syscall_args(), [6, 5, 4, 10, 8, 9]);
    ctx.set_return_value(u64::MAX);
    assert_eq!(ctx.general.rax, u64::MAX);
    assert_eq!(ctx.stack_pointer(), 0x7fff_0000);
}

#[test]
fn exception_vectors() {
    assert_eq!(exception_signal(0), Some(SIGFPE));
    assert_eq!(exception_signal(3), Some(SIGTRAP));
    assert_eq!(exception_signal(6), Some(SIGILL));
    assert_eq!(exception_signal(13), Some(SIGSEGV));
    assert_eq!(exception_signal(2), None);
    let fault = UserExceptionDetails { vector: 14, error_code: 0x6, fault_address: 0xdead, instruction_pointer: 0x400000 };
    match classify_user_exception(fault) {
        UserExceptionClass::PageFault(details) => {
            assert_eq!(details.access, PageFaultAccessType::Write);
            assert!(details.from_user);
            assert!(!details.present);
            assert_eq!(details.address, 0xdead);
        }
        other => panic!("unexpected {:?}", other),
    }
    let ud = UserExceptionDetails { vector: 6, ..fault };
    assert_eq!(classify_user_exception(ud), UserExceptionClass::Signal { signal: SIGILL, details: ud });
    let nmi = UserExceptionDetails { vector: 2, ..fault };
    assert_eq!(classify_user_exception(nmi), UserExceptionClass::Fatal(nmi));
}

#[test]
fn signal_frames_round_trip_through_sigreturn() {
    let saved = context(0x7fff_0000);
    let action = SignalAction { handler: 0x402000, flags: SA_SIGINFO | SA_RESTORER, restorer: 0x403000, mask: 0 };
    let plan = deliver_signal_to_user(&saved, 0x10, SignalInfo::kernel(SIGUSR1, 0), action).unwrap();
    assert_eq!(plan.writes.len(), 3);
    assert_eq!(plan.context.general.rip, 0x402000);
    assert_eq!(plan.context.general.rdi, SIGUSR1 as u64);
    assert_eq!(plan.context.general.rsp % 16, 8);
    assert_eq!(plan.writes[0].bytes, 0x403000u64.to_le_bytes().to_vec());
    assert_eq!(plan.blocked, 0x10 | (1u64 << (SIGUSR1 - 1)));
    let ucontext = &plan.writes[1].bytes;
    assert_eq!(ucontext.len() as u64, UCONTEXT_SIZE);
    let mut clobbered = plan.context;
    clobbered.general.rbx = 999;
    let restored = restore_signal_from_user(&clobbered, ucontext).unwrap();
    assert_eq!(restored.context.general, saved.general);
    assert_eq!(restored.mask, 0x10);
    assert_eq!(restore_signal_from_user(&saved, &ucontext[..10]).err(), Some(SysErr::Fault));
}

#[test]
fn handlers_without_a_restorer_get_a_trampoline() {
    let saved = context(0x7fff_0000);
    let action = SignalAction { handler: 0x402000, flags: 0, restorer: 0, mask: 0 };
    let plan = deliver_signal_to_user(&saved, 0, SignalInfo::kernel(SIGUSR1, 0), action).unwrap();
    assert_eq!(plan.writes.len(), 4);
    assert_eq!(plan.context.general.rsi, 0);
    let low = context(64);
    assert_eq!(deliver_signal_to_user(&low, 0, SignalInfo::kernel(SIGUSR1, 0), action).err(), Some(SignalFrameError::InvalidFrame));
    let default = SignalAction { handler: 0, ..action };
    assert!(deliver_signal_to_user(&saved, 0, SignalInfo::kernel(SIGUSR1, 0), default).is_err());
}

#[test]
fn root_credentials() {
    let root = Credentials::root();
    assert!(root.is_superuser());
    let user = Credentials { euid: 1000, ..Credentials::root() };
    assert!(!user.is_superuser());
}

#[test]
fn identities_and_futex_keys() {
    let thread = ProcessIdentity { pid: 11, thread_group: 10, parent: Some(1), process_group: 10, session: 10 };
    assert!(thread.is_thread());
    let leader = ProcessIdentity { pid: 10, ..thread };
    assert!(!leader.is_thread());
    assert_eq!(FutexKey::private(3, 0x1000).scope, FutexScope::Private { address_space_id: 3 });
    assert_eq!(FutexKey::shared(0x1000).scope, FutexScope::Shared);
}

#[test]
fn command_names() {
    let state = PrctlState::for_exec_path("/usr/bin/a-very-long-program-name");
    assert_eq!(&state.name_bytes()[..15], b"a-very-long-pro");
    assert_eq!(state.name_bytes()[15], 0);
    assert!(state.dumpable);
    let mut renamed = state;
    renamed.set_name_bytes(b"init\0junk");
    assert_eq!(&renamed.name_bytes()[..5], b"init\0");
}

#[test]
fn wait_status_words() {
    assert_eq!(wait_status(ChildEventKind::Exited(3)), 3 << 8);
    assert_eq!(wait_status(ChildEventKind::Exited(128 + 9)), 9);
    assert_eq!(wait_status(ChildEventKind::Stopped(19)), (19 << 8) | 0x7f);
    assert_eq!(wait_status(ChildEventKind::Continued), 0xffff);
    assert!(child_event_matches_options(ChildEventKind::Exited(0), 0));
    assert!(!child_event_matches_options(ChildEventKind::Stopped(19), 0));
    assert!(child_event_matches_options(ChildEventKind::Stopped(19), WUNTRACED));
    assert!(child_event_matches_options(ChildEventKind::Continued, WCONTINUED));
}

#[test]
fn sigsets_and_iovecs_from_user_memory() {
    assert_eq!(decode_sigset(&[1, 2]), 0x0201);
    assert_eq!(decode_sigset(&0x8000_0000_0000_0001u64.to_le_bytes()), 0x8000_0000_0000_0001);
    let mut raw = Vec::new();
    raw.extend_from_slice(&0x1000u64.to_le_bytes());
    raw.extend_from_slice(&32u64.to_le_bytes());
    raw.extend_from_slice(&0x2000u64.to_le_bytes());
    raw.extend_from_slice(&0u64.to_le_bytes());
    assert_eq!(parse_iovec_array(&raw, 2), vec![UserIoVec { base: 0x1000, len: 32 }, UserIoVec { base: 0x2000, len: 0 }]);
}

#[test]
fn clone_requests() {
    assert_eq!(CloneParams::fork().validate(), Ok(()));
    assert_eq!(CloneParams::vfork().validate(), Ok(()));
    assert!(CloneParams::vfork().is_vfork());
    let thread = CloneParams::from_clone(CLONE_VM | CLONE_SIGHAND | CLONE_THREAD | CLONE_SETTLS, 0x8000, 0, 0, 0x9000);
    assert_eq!(thread.tls, Some(0x9000));
    assert_eq!(thread.child_stack_pointer, Some(0x8000));
    assert_eq!(thread.validate(), Ok(()));
    let bad_thread = CloneParams::from_clone(CLONE_THREAD, 0, 0, 0, 0);
    assert_eq!(bad_thread.validate(), Err(SysErr::Inval));
    let bad_vfork = CloneParams::from_clone(CLONE_VFORK, 0, 0, 0, 0);
    assert_eq!(bad_vfork.validate(), Err(SysErr::Inval));
    let with_signal = CloneParams::from_clone(17, 0, 0, 0, 0);
    assert_eq!(with_signal.exit_signal, 17);
    assert_eq!(with_signal.flags, 0);
}

#[test]
fn clone3_records() {
    let mut raw = vec![0u8; 88];
    raw[32] = 17;
    raw[40..48].copy_from_slice(&0x7000u64.to_le_bytes());
    raw[48..56].copy_from_slice(&0x1000u64.to_le_bytes());
    let args = LinuxCloneArgs::from_bytes(&raw).unwrap();
    assert_eq!(args.exit_signal, 17);
    assert_eq!(args.validate(88), Ok(()));
    assert_eq!(args.validate(64), Err(SysErr::Inval));
    let params = CloneParams::from_clone3(args);
    assert_eq!(params.child_stack_pointer, Some(0x8000));
    assert_eq!(LinuxCloneArgs::from_bytes(&raw[..87]), None);
}

#[test]
fn a_ucontext_record_reads_back_from_its_bytes() {
    let mut record = build_ucontext(context(0x7fff_0000), 0x5);
    record.fpregs_mem[7] = 0xab;
    record.ssp[3] = 99;
    let bytes = serialize_ucontext(&record);
    assert_eq!(bytes.len() as u64, UCONTEXT_SIZE);
    let back = decode_ucontext(&bytes).unwrap();
    assert_eq!(back.gregs, record.gregs);
    assert_eq!(back.sigmask, record.sigmask);
    assert_eq!(back.reserved1, record.reserved1);
    assert_eq!(back.fpregs_mem, record.fpregs_mem);
    assert_eq!(back.ssp, record.ssp);
    assert_eq!((back.uc_flags, back.uc_link, back.fpregs), (record.uc_flags, record.uc_link, record.fpregs));
    assert!(decode_ucontext(&bytes[..967]).is_none());
}
