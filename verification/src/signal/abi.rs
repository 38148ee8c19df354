//! Signal numbers, masks, actions and alternate stacks as the Linux x86_64 ABI defines them.
use vstd::prelude::*;

use crate::errno::SysErr;
use crate::wire::{
    i32_le, le_i32_at, le_u64_at, lemma_i32_roundtrip, lemma_le_u64_at_concat,
    lemma_le_u64_at_prefix, lemma_u64_roundtrip, push_u64, read_i32_at, read_u64_at, u64_le,
};

verus! {

/// A set of signals: bit `n - 1` stands for signal `n`.
pub type SigSet = u64;

pub const SIGNAL_MAX: usize = 64;

pub const SIGHUP: u8 = 1;
pub const SIGINT: u8 = 2;
pub const SIGQUIT: u8 = 3;
pub const SIGILL: u8 = 4;
pub const SIGTRAP: u8 = 5;
pub const SIGABRT: u8 = 6;
pub const SIGBUS: u8 = 7;
pub const SIGFPE: u8 = 8;
pub const SIGKILL: u8 = 9;
pub const SIGUSR1: u8 = 10;
pub const SIGSEGV: u8 = 11;
pub const SIGUSR2: u8 = 12;
pub const SIGPIPE: u8 = 13;
pub const SIGALRM: u8 = 14;
pub const SIGTERM: u8 = 15;
pub const SIGCHLD: u8 = 17;
pub const SIGCONT: u8 = 18;
pub const SIGSTOP: u8 = 19;
pub const SIGTSTP: u8 = 20;
pub const SIGTTIN: u8 = 21;
pub const SIGTTOU: u8 = 22;
pub const SIGURG: u8 = 23;
pub const SIGXCPU: u8 = 24;
pub const SIGXFSZ: u8 = 25;
pub const SIGVTALRM: u8 = 26;
pub const SIGPROF: u8 = 27;
pub const SIGWINCH: u8 = 28;
pub const SIGIO: u8 = 29;
pub const SIGPWR: u8 = 30;
pub const SIGSYS: u8 = 31;

pub const SIG_BLOCK: u64 = 0;
pub const SIG_UNBLOCK: u64 = 1;
pub const SIG_SETMASK: u64 = 2;

pub const SIG_DFL: u64 = 0;
pub const SIG_IGN: u64 = 1;

pub const SA_NOCLDSTOP: u64 = 0x0000_0001;
pub const SA_NOCLDWAIT: u64 = 0x0000_0002;
pub const SA_SIGINFO: u64 = 0x0000_0004;
pub const SA_ONSTACK: u64 = 0x0800_0000;
pub const SA_RESTORER: u64 = 0x0400_0000;
pub const SA_NODEFER: u64 = 0x4000_0000;

pub const SS_ONSTACK: i32 = 1;
pub const SS_DISABLE: i32 = 2;
pub const SS_AUTODISARM: i32 = i32::MIN;

pub const MINSIGSTKSZ: u64 = 2048;

pub const CLD_EXITED: i32 = 1;
pub const CLD_KILLED: i32 = 2;
pub const CLD_DUMPED: i32 = 3;
pub const CLD_STOPPED: i32 = 5;
pub const CLD_CONTINUED: i32 = 6;

/// Size of a `sigaction` record as the kernel reads and writes it.
pub const SIGACTION_SIZE: usize = 32;

/// Size of a `stack_t` record.
pub const SIGNAL_STACK_SIZE: usize = 24;

/// What is known of one signal occurrence.
#[derive(Debug, Clone, Copy, PartialEq, Eq, Structural)]
pub struct SignalInfo {
    pub signal: u8,
    pub code: i32,
    pub status: i32,
    pub pid: i32,
    pub uid: u32,
}

impl SignalInfo {
    /// The `SIGCHLD` a parent receives when a child exits with `status`; a status of 128 or
    /// more stands for death by signal `status - 128`.
    pub fn child_exit(pid: u32, status: i32) -> (r: Self)
        ensures
            r.signal == SIGCHLD,
            r.pid == pid as i32,
            r.uid == 0,
            status >= 128 ==> r.code == CLD_KILLED && r.status == status - 128,
            status < 128 ==> r.code == CLD_EXITED && r.status == status,
    {
        let (code, status) = if status >= 128 {
            (CLD_KILLED, status - 128)
        } else {
            (CLD_EXITED, status)
        };
        SignalInfo { signal: SIGCHLD, code, status, pid: pid as i32, uid: 0 }
    }

    /// The `SIGCHLD` a parent receives when a child is stopped by `signal`.
    pub fn child_stop(pid: u32, signal: u8) -> (r: Self)
        ensures
            r == (SignalInfo {
                signal: SIGCHLD,
                code: CLD_STOPPED,
                status: signal as i32,
                pid: pid as i32,
                uid: 0,
            }),
    {
        SignalInfo {
            signal: SIGCHLD,
            code: CLD_STOPPED,
            status: signal as i32,
            pid: pid as i32,
            uid: 0,
        }
    }

    /// The `SIGCHLD` a parent receives when a stopped child continues.
    pub fn child_continue(pid: u32) -> (r: Self)
        ensures
            r == (SignalInfo {
                signal: SIGCHLD,
                code: CLD_CONTINUED,
                status: 0,
                pid: pid as i32,
                uid: 0,
            }),
    {
        SignalInfo { signal: SIGCHLD, code: CLD_CONTINUED, status: 0, pid: pid as i32, uid: 0 }
    }

    /// A signal raised by the kernel itself.
    pub fn kernel(signal: u8, code: i32) -> (r: Self)
        ensures
            r == (SignalInfo { signal, code, status: 0, pid: 0, uid: 0 }),
    {
        SignalInfo { signal, code, status: 0, pid: 0, uid: 0 }
    }
}

/// The disposition of one signal, as `sigaction` describes it.
#[derive(Debug, Clone, Copy, PartialEq, Eq, Structural)]
pub struct SignalAction {
    pub handler: u64,
    pub flags: u64,
    pub restorer: u64,
    pub mask: SigSet,
}

/// The default disposition, the same for every signal.
pub open spec fn default_action_record() -> SignalAction {
    SignalAction { handler: SIG_DFL, flags: 0, restorer: 0, mask: 0 }
}

impl SignalAction {
    /// The disposition a signal has before any `sigaction`.
    pub fn default_for(signal: u8) -> (r: Self)
        ensures
            r == default_action_record(),
    {
        let _ = signal;
        SignalAction { handler: SIG_DFL, flags: 0, restorer: 0, mask: 0 }
    }
}

/// The bit that stands for `signal` in a mask; no bit for 0 or for a number above 64.
pub open spec fn spec_sigbit(signal: u8) -> u64 {
    if signal == 0 || signal > 64 {
        0
    } else {
        1u64 << ((signal - 1) as u64)
    }
}

/// Whether `mask` holds `signal`.
pub open spec fn mask_has(mask: u64, signal: u8) -> bool {
    1 <= signal <= 64 && mask & spec_sigbit(signal) != 0
}

/// The mask bit of `signal`.
pub fn sigbit(signal: u8) -> (r: SigSet)
    ensures
        r == spec_sigbit(signal),
{
    if signal == 0 || signal as usize > SIGNAL_MAX {
        0
    } else {
        1u64 << ((signal - 1) as u64)
    }
}

/// Distinct signals have distinct, single bits.
pub proof fn lemma_sigbit_distinct(a: u8, b: u8)
    requires
        1 <= a <= 64,
        1 <= b <= 64,
        a != b,
    ensures
        spec_sigbit(a) != 0,
        spec_sigbit(a) & spec_sigbit(b) == 0,
{
    let x = (a - 1) as u64;
    let y = (b - 1) as u64;
    assert((1u64 << x) != 0 && (1u64 << x) & (1u64 << y) == 0) by (bit_vector)
        requires
            x < 64,
            y < 64,
            x != y,
    ;
}

/// An alternate signal stack, laid out as `stack_t`.
#[derive(Debug, Clone, Copy, PartialEq, Eq, Structural)]
pub struct SignalStack {
    pub ss_sp: u64,
    pub ss_flags: i32,
    pub _pad: i32,
    pub ss_size: u64,
}

/// The alternate stack that is switched off.
pub open spec fn disabled_stack() -> SignalStack {
    SignalStack { ss_sp: 0, ss_flags: SS_DISABLE, _pad: 0, ss_size: 0 }
}

impl SignalStack {
    /// An alternate stack that is switched off.
    pub fn disabled() -> (r: Self)
        ensures
            r == disabled_stack(),
    {
        SignalStack { ss_sp: 0, ss_flags: SS_DISABLE, _pad: 0, ss_size: 0 }
    }
}

impl Default for SignalStack {
    fn default() -> (r: Self)
        ensures
            r == disabled_stack(),
    {
        Self::disabled()
    }
}

/// The bytes of a `sigaction` record.
pub open spec fn sigaction_bytes(action: SignalAction) -> Seq<u8> {
    u64_le(action.handler) + u64_le(action.flags) + u64_le(action.restorer) + u64_le(action.mask)
}

/// The `sigaction` record held by the first 32 bytes of `bytes`.
pub open spec fn sigaction_from_bytes(bytes: Seq<u8>) -> SignalAction {
    SignalAction {
        handler: le_u64_at(bytes, 0),
        flags: le_u64_at(bytes, 8),
        restorer: le_u64_at(bytes, 16),
        mask: le_u64_at(bytes, 24),
    }
}

/// Reads a `sigaction` record; `None` when fewer than 32 bytes are given.
pub fn parse_sigaction(bytes: &[u8]) -> (r: Option<SignalAction>)
    ensures
        r == (if bytes@.len() < 32 {
            None
        } else {
            Some(sigaction_from_bytes(bytes@))
        }),
{
    if bytes.len() < SIGACTION_SIZE {
        return None;
    }
    Some(
        SignalAction {
            handler: read_u64_at(bytes, 0),
            flags: read_u64_at(bytes, 8),
            restorer: read_u64_at(bytes, 16),
            mask: read_u64_at(bytes, 24),
        },
    )
}

/// Writes a `sigaction` record.
pub fn serialize_sigaction(action: SignalAction) -> (r: Vec<u8>)
    ensures
        r@ == sigaction_bytes(action),
{
    let mut bytes: Vec<u8> = Vec::with_capacity(SIGACTION_SIZE);
    push_u64(&mut bytes, action.handler);
    push_u64(&mut bytes, action.flags);
    push_u64(&mut bytes, action.restorer);
    push_u64(&mut bytes, action.mask);
    assert(bytes@ =~= sigaction_bytes(action));
    bytes
}

/// Reading back a written `sigaction` record gives the same action.
pub proof fn lemma_sigaction_roundtrip(action: SignalAction)
    ensures
        sigaction_bytes(action).len() == 32,
        sigaction_from_bytes(sigaction_bytes(action)) == action,
{
    let a = u64_le(action.handler);
    let b = u64_le(action.flags);
    let c = u64_le(action.restorer);
    let d = u64_le(action.mask);
    lemma_u64_roundtrip(action.handler);
    lemma_u64_roundtrip(action.flags);
    lemma_u64_roundtrip(action.restorer);
    lemma_u64_roundtrip(action.mask);
    let s = a + b + c + d;
    lemma_le_u64_at_prefix(a, b + c + d, 0);
    assert(s =~= a + (b + c + d));
    lemma_le_u64_at_concat(a, b + c + d, 0);
    lemma_le_u64_at_prefix(b, c + d, 0);
    assert(b + c + d =~= b + (c + d));
    assert(s =~= (a + b) + (c + d));
    lemma_le_u64_at_concat(a + b, c + d, 0);
    lemma_le_u64_at_prefix(c, d, 0);
    assert(s =~= (a + b + c) + d);
    lemma_le_u64_at_concat(a + b + c, d, 0);
}

/// The bytes of a `stack_t` record.
pub open spec fn signal_stack_bytes(stack: SignalStack) -> Seq<u8> {
    u64_le(stack.ss_sp) + i32_le(stack.ss_flags) + i32_le(stack._pad) + u64_le(stack.ss_size)
}

/// The `stack_t` record held by the first 24 bytes of `bytes`.
pub open spec fn signal_stack_from_bytes(bytes: Seq<u8>) -> SignalStack {
    SignalStack {
        ss_sp: le_u64_at(bytes, 0),
        ss_flags: le_i32_at(bytes, 8),
        _pad: le_i32_at(bytes, 12),
        ss_size: le_u64_at(bytes, 16),
    }
}

/// Reads a `stack_t` record; `None` when fewer than 24 bytes are given.
pub fn parse_signal_stack(bytes: &[u8]) -> (r: Option<SignalStack>)
    ensures
        r == (if bytes@.len() < 24 {
            None
        } else {
            Some(signal_stack_from_bytes(bytes@))
        }),
{
    if bytes.len() < SIGNAL_STACK_SIZE {
        return None;
    }
    Some(
        SignalStack {
            ss_sp: read_u64_at(bytes, 0),
            ss_flags: read_i32_at(bytes, 8),
            _pad: read_i32_at(bytes, 12),
            ss_size: read_u64_at(bytes, 16),
        },
    )
}

/// Writes a `stack_t` record.
pub fn serialize_signal_stack(stack: SignalStack) -> (r: [u8; 24])
    ensures
        r@ == signal_stack_bytes(stack),
{
    let sp = stack.ss_sp;
    let fl = stack.ss_flags as u32;
    let pd = stack._pad as u32;
    let sz = stack.ss_size;
    let bytes: [u8; 24] = [
        (sp & 0xff) as u8,
        ((sp >> 8u64) & 0xff) as u8,
        ((sp >> 16u64) & 0xff) as u8,
        ((sp >> 24u64) & 0xff) as u8,
        ((sp >> 32u64) & 0xff) as u8,
        ((sp >> 40u64) & 0xff) as u8,
        ((sp >> 48u64) & 0xff) as u8,
        ((sp >> 56u64) & 0xff) as u8,
        (fl & 0xff) as u8,
        ((fl >> 8u32) & 0xff) as u8,
        ((fl >> 16u32) & 0xff) as u8,
        ((fl >> 24u32) & 0xff) as u8,
        (pd & 0xff) as u8,
        ((pd >> 8u32) & 0xff) as u8,
        ((pd >> 16u32) & 0xff) as u8,
        ((pd >> 24u32) & 0xff) as u8,
        (sz & 0xff) as u8,
        ((sz >> 8u64) & 0xff) as u8,
        ((sz >> 16u64) & 0xff) as u8,
        ((sz >> 24u64) & 0xff) as u8,
        ((sz >> 32u64) & 0xff) as u8,
        ((sz >> 40u64) & 0xff) as u8,
        ((sz >> 48u64) & 0xff) as u8,
        ((sz >> 56u64) & 0xff) as u8,
    ];
    assert(bytes@ =~= signal_stack_bytes(stack));
    bytes
}

/// Reading back a written `stack_t` record gives the same stack.
pub proof fn lemma_signal_stack_roundtrip(stack: SignalStack)
    ensures
        signal_stack_bytes(stack).len() == 24,
        signal_stack_from_bytes(signal_stack_bytes(stack)) == stack,
{
    let a = u64_le(stack.ss_sp);
    let b = i32_le(stack.ss_flags);
    let c = i32_le(stack._pad);
    let d = u64_le(stack.ss_size);
    lemma_u64_roundtrip(stack.ss_sp);
    lemma_u64_roundtrip(stack.ss_size);
    lemma_i32_roundtrip(stack.ss_flags);
    lemma_i32_roundtrip(stack._pad);
    let s = a + b + c + d;
    assert(s =~= a + (b + c + d));
    lemma_le_u64_at_prefix(a, b + c + d, 0);
    assert(s =~= (a + b + c) + d);
    lemma_le_u64_at_concat(a + b + c, d, 0);
    assert(s[8] == b[0] && s[9] == b[1] && s[10] == b[2] && s[11] == b[3]);
    assert(s[12] == c[0] && s[13] == c[1] && s[14] == c[2] && s[15] == c[3]);
}

/// Where the alternate stack begins.
pub fn signal_stack_base(stack: &SignalStack) -> (r: u64)
    ensures
        r == stack.ss_sp,
{
    stack.ss_sp
}

/// Switches the alternate stack off.
pub fn signal_altstack_disable(stack: &mut SignalStack)
    ensures
        *final(stack) == disabled_stack(),
{
    *stack = SignalStack::disabled();
}

/// Whether an alternate stack is configured: not disabled, and of nonzero size.
pub open spec fn altstack_enabled(stack: SignalStack) -> bool {
    stack.ss_flags & SS_DISABLE == 0 && stack.ss_size > 0
}

/// Whether `sp` lies inside the configured alternate stack, whose end must not overflow.
pub open spec fn altstack_contains(stack: SignalStack, sp: u64) -> bool {
    &&& altstack_enabled(stack)
    &&& stack.ss_sp + stack.ss_size <= u64::MAX
    &&& stack.ss_sp <= sp < stack.ss_sp + stack.ss_size
}

/// The `ss_flags` that `sigaltstack` reports for the stack when the user stack pointer is `sp`.
pub open spec fn altstack_status(stack: SignalStack, sp: u64) -> i32 {
    if !altstack_enabled(stack) {
        SS_DISABLE
    } else if altstack_contains(stack, sp) {
        (stack.ss_flags & SS_AUTODISARM) | SS_ONSTACK
    } else {
        stack.ss_flags & SS_AUTODISARM
    }
}

/// Whether an alternate stack is configured.
pub fn signal_altstack_config_enabled(stack: &SignalStack) -> (r: bool)
    ensures
        r == altstack_enabled(*stack),
{
    (stack.ss_flags & SS_DISABLE) == 0 && stack.ss_size > 0
}

/// Whether `sp` lies inside the configured alternate stack.
pub fn signal_altstack_contains_sp(stack: &SignalStack, sp: u64) -> (r: bool)
    ensures
        r == altstack_contains(*stack, sp),
{
    if !signal_altstack_config_enabled(stack) {
        return false;
    }
    let base = signal_stack_base(stack);
    match base.checked_add(stack.ss_size) {
        None => false,
        Some(end) => sp >= base && sp < end,
    }
}

/// The flags `sigaltstack` reports: `SS_DISABLE` when off, else the auto-disarm bit and
/// `SS_ONSTACK` when `sp` is on the alternate stack.
pub fn signal_altstack_status_flags(stack: &SignalStack, sp: u64) -> (r: i32)
    ensures
        r == altstack_status(*stack, sp),
{
    if !signal_altstack_config_enabled(stack) {
        return SS_DISABLE;
    }
    let mut flags = stack.ss_flags & SS_AUTODISARM;
    if signal_altstack_contains_sp(stack, sp) {
        flags = flags | SS_ONSTACK;
    }
    flags
}

/// The stack as `sigaltstack` reports it back: its fields with the reported flags.
pub fn signal_altstack_format_old(stack: &SignalStack, sp: u64) -> (r: SignalStack)
    ensures
        r == (SignalStack { ss_flags: altstack_status(*stack, sp), ..*stack }),
{
    let mut formatted = *stack;
    formatted.ss_flags = signal_altstack_status_flags(stack, sp);
    formatted
}

/// Whether a new alternate stack is acceptable: a disabled one always is; otherwise only
/// `SS_ONSTACK` and `SS_AUTODISARM` may be set (else `Inval`) and the size must be at least
/// `MINSIGSTKSZ` (else `NoMem`).
pub fn signal_altstack_validate_new(stack: &SignalStack) -> (r: Result<(), SysErr>)
    ensures
        stack.ss_flags & SS_DISABLE != 0 ==> r is Ok,
        stack.ss_flags & SS_DISABLE == 0 && stack.ss_flags & !(SS_ONSTACK | SS_AUTODISARM) != 0
            ==> r == Err::<(), SysErr>(SysErr::Inval),
        stack.ss_flags & SS_DISABLE == 0 && stack.ss_flags & !(SS_ONSTACK | SS_AUTODISARM) == 0
            && stack.ss_size < MINSIGSTKSZ ==> r == Err::<(), SysErr>(SysErr::NoMem),
        stack.ss_flags & SS_DISABLE == 0 && stack.ss_flags & !(SS_ONSTACK | SS_AUTODISARM) == 0
            && stack.ss_size >= MINSIGSTKSZ ==> r is Ok,
{
    if (stack.ss_flags & SS_DISABLE) != 0 {
        return Ok(());
    }
    let allowed_flags = SS_ONSTACK | SS_AUTODISARM;
    if (stack.ss_flags & !allowed_flags) != 0 {
        return Err(SysErr::Inval);
    }
    if stack.ss_size < MINSIGSTKSZ {
        return Err(SysErr::NoMem);
    }
    Ok(())
}

/// The stack that `signal_altstack_store` keeps for the request `src`.
pub open spec fn stored_altstack(src: SignalStack) -> SignalStack {
    if src.ss_flags & SS_DISABLE != 0 {
        disabled_stack()
    } else {
        SignalStack { ss_flags: src.ss_flags & SS_AUTODISARM, ..src }
    }
}

/// Records a new alternate stack: a disabled request switches it off; otherwise the stack
/// is kept with only its auto-disarm bit.
pub fn signal_altstack_store(dst: &mut SignalStack, src: &SignalStack)
    ensures
        *final(dst) == stored_altstack(*src),
{
    if (src.ss_flags & SS_DISABLE) != 0 {
        signal_altstack_disable(dst);
        return;
    }
    *dst = *src;
    let f = src.ss_flags;
    dst.ss_flags = (f & !SS_ONSTACK) & SS_AUTODISARM;
    assert((f & !1i32) & i32::MIN == f & i32::MIN) by (bit_vector);
}

/// A stored alternate stack never reports itself as being in use.
pub proof fn lemma_stored_altstack_not_onstack(src: SignalStack)
    ensures
        stored_altstack(src).ss_flags & SS_ONSTACK == 0,
{
    let f = src.ss_flags;
    assert((f & i32::MIN) & 1i32 == 0) by (bit_vector);
    assert(2i32 & 1i32 == 0) by (bit_vector);
}

} // verus!
