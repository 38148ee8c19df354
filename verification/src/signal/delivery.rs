//! What happens to a signal: blocked, ignored, handled, or one of the default actions.
use vstd::prelude::*;

use super::abi::{
    SIGABRT, SIGALRM, SIGBUS, SIGCHLD, SIGCONT, SIGFPE, SIGHUP, SIGILL, SIGINT, SIGIO, SIGKILL,
    SIGPIPE, SIGPROF, SIGPWR, SIGQUIT, SIGSEGV, SIGSTOP, SIGSYS, SIGTERM, SIGTRAP, SIGTSTP,
    SIGTTIN, SIGTTOU, SIGURG, SIGUSR1, SIGUSR2, SIGVTALRM, SIGWINCH, SIGXCPU, SIGXFSZ, SIG_DFL,
    SIG_IGN, SigSet, SignalAction, SignalInfo, mask_has, sigbit, spec_sigbit,
};

verus! {

/// The default action of a signal whose disposition is `SIG_DFL`.
#[derive(Debug, Clone, Copy, PartialEq, Eq, Structural)]
pub enum SignalDefault {
    Ignore,
    Terminate,
    Stop,
    Continue,
}

/// The outcome of looking at one pending signal.
#[derive(Debug, Clone, Copy, PartialEq, Eq, Structural)]
pub enum SignalDelivery {
    Nothing,
    Ignored(SignalInfo),
    Deliver(SignalInfo, SignalAction),
    Exit(SignalInfo),
    Stop(SignalInfo),
    Continue(SignalInfo),
}

/// The default action of `signal`.
pub open spec fn spec_default_action(signal: u8) -> SignalDefault {
    if signal == SIGCHLD || signal == SIGURG || signal == SIGWINCH {
        SignalDefault::Ignore
    } else if signal == SIGSTOP || signal == SIGTSTP || signal == SIGTTIN || signal == SIGTTOU {
        SignalDefault::Stop
    } else if signal == SIGCONT {
        SignalDefault::Continue
    } else {
        SignalDefault::Terminate
    }
}

/// The default action of `signal`: ignore `SIGCHLD`, `SIGURG` and `SIGWINCH`, stop on the four
/// stop signals, continue on `SIGCONT`, and terminate on every other number.
pub fn default_action(signal: u8) -> (r: SignalDefault)
    ensures
        r == spec_default_action(signal),
        (r == SignalDefault::Stop) <==> (signal == 19 || signal == 20 || signal == 21 || signal == 22),
        (r == SignalDefault::Ignore) <==> (signal == 17 || signal == 23 || signal == 28),
        (r == SignalDefault::Continue) <==> signal == 18,
{
    match signal {
        SIGCHLD | SIGURG | SIGWINCH => SignalDefault::Ignore,
        SIGSTOP | SIGTSTP | SIGTTIN | SIGTTOU => SignalDefault::Stop,
        SIGCONT => SignalDefault::Continue,
        SIGHUP | SIGINT | SIGQUIT | SIGILL | SIGTRAP | SIGABRT | SIGBUS | SIGFPE | SIGKILL
        | SIGUSR1 | SIGSEGV | SIGUSR2 | SIGPIPE | SIGALRM | SIGTERM | SIGXCPU | SIGXFSZ
        | SIGVTALRM | SIGPROF | SIGIO | SIGPWR | SIGSYS => SignalDefault::Terminate,
        _ => SignalDefault::Terminate,
    }
}

/// The bits of `SIGKILL` and `SIGSTOP`, which no mask may hold.
pub open spec fn unblockable_bits() -> u64 {
    spec_sigbit(SIGKILL) | spec_sigbit(SIGSTOP)
}

/// `mask` without the bits of `SIGKILL` and `SIGSTOP`.
pub open spec fn spec_sanitize_mask(mask: u64) -> u64 {
    mask & !unblockable_bits()
}

/// Whether `signal` is blocked by `mask`; `SIGKILL` and `SIGSTOP` never are.
pub open spec fn spec_is_blocked(mask: u64, signal: u8) -> bool {
    mask & spec_sigbit(signal) != 0 && signal != SIGKILL && signal != SIGSTOP
}

/// Removes `SIGKILL` and `SIGSTOP` from a mask.
pub fn sanitize_mask(mask: SigSet) -> (r: SigSet)
    ensures
        r == spec_sanitize_mask(mask),
{
    mask & !(sigbit(SIGKILL) | sigbit(SIGSTOP))
}

/// Whether `signal` is blocked by `mask`.
pub fn is_blocked(mask: SigSet, signal: u8) -> (r: bool)
    ensures
        r == spec_is_blocked(mask, signal),
{
    (mask & sigbit(signal)) != 0 && signal != SIGKILL && signal != SIGSTOP
}

/// A sanitized mask holds neither `SIGKILL` nor `SIGSTOP`, and agrees with the original
/// mask on every other signal.
pub proof fn lemma_sanitize_mask(mask: u64, signal: u8)
    ensures
        !mask_has(spec_sanitize_mask(mask), SIGKILL),
        !mask_has(spec_sanitize_mask(mask), SIGSTOP),
        signal != SIGKILL && signal != SIGSTOP ==> (mask_has(spec_sanitize_mask(mask), signal)
            <==> mask_has(mask, signal)),
        spec_sanitize_mask(spec_sanitize_mask(mask)) == spec_sanitize_mask(mask),
{
    assert(spec_sigbit(SIGKILL) == 1u64 << 8u64);
    assert(spec_sigbit(SIGSTOP) == 1u64 << 18u64);
    let k = 1u64 << 8u64;
    let s = 1u64 << 18u64;
    assert((mask & !(k | s)) & k == 0 && (mask & !(k | s)) & s == 0) by (bit_vector)
        requires
            k == 1u64 << 8u64,
            s == 1u64 << 18u64,
    ;
    assert((mask & !(k | s)) & !(k | s) == mask & !(k | s)) by (bit_vector);
    if 1 <= signal <= 64 && signal != SIGKILL && signal != SIGSTOP {
        let x = (signal - 1) as u64;
        assert(((mask & !(k | s)) & (1u64 << x) != 0) == (mask & (1u64 << x) != 0))
            by (bit_vector)
            requires
                k == 1u64 << 8u64,
                s == 1u64 << 18u64,
                x < 64,
                x != 8,
                x != 18,
        ;
    }
}

/// What happens to `info` given the blocked mask, the signal's action and whether user
/// handlers can be run: nothing while blocked; `Ignored` for `SIG_IGN`; a handler is
/// delivered (or the process exits when handlers are not supported); otherwise the default
/// action.
pub open spec fn spec_delivery_for(
    blocked: u64,
    action: SignalAction,
    info: SignalInfo,
    handlers_supported: bool,
) -> SignalDelivery {
    if spec_is_blocked(blocked, info.signal) {
        SignalDelivery::Nothing
    } else if action.handler == SIG_IGN {
        SignalDelivery::Ignored(info)
    } else if action.handler != SIG_DFL {
        if handlers_supported {
            SignalDelivery::Deliver(info, action)
        } else {
            SignalDelivery::Exit(info)
        }
    } else {
        match spec_default_action(info.signal) {
            SignalDefault::Ignore => SignalDelivery::Ignored(info),
            SignalDefault::Terminate => SignalDelivery::Exit(info),
            SignalDefault::Stop => SignalDelivery::Stop(info),
            SignalDefault::Continue => SignalDelivery::Continue(info),
        }
    }
}

/// Decides what happens to one pending signal.
pub fn delivery_for(
    blocked: SigSet,
    action: SignalAction,
    info: SignalInfo,
    handlers_supported: bool,
) -> (r: SignalDelivery)
    ensures
        r == spec_delivery_for(blocked, action, info, handlers_supported),
{
    if is_blocked(blocked, info.signal) {
        return SignalDelivery::Nothing;
    }
    if action.handler == SIG_IGN {
        return SignalDelivery::Ignored(info);
    }
    if action.handler != SIG_DFL {
        return if handlers_supported {
            SignalDelivery::Deliver(info, action)
        } else {
            SignalDelivery::Exit(info)
        };
    }
    match default_action(info.signal) {
        SignalDefault::Ignore => SignalDelivery::Ignored(info),
        SignalDefault::Terminate => SignalDelivery::Exit(info),
        SignalDefault::Stop => SignalDelivery::Stop(info),
        SignalDefault::Continue => SignalDelivery::Continue(info),
    }
}

/// The default actions by signal number: the job-control signals 19 (`SIGSTOP`), 20
/// (`SIGTSTP`), 21 (`SIGTTIN`) and 22 (`SIGTTOU`) stop the process and no other signal
/// does; 17 (`SIGCHLD`), 23 (`SIGURG`) and 28 (`SIGWINCH`) are ignored; 18 (`SIGCONT`)
/// continues; every other signal terminates.
pub proof fn lemma_default_actions(signal: u8)
    ensures
        (spec_default_action(signal) == SignalDefault::Stop) <==> (signal == 19 || signal == 20 || signal == 21
            || signal == 22),
        (spec_default_action(signal) == SignalDefault::Ignore) <==> (signal == 17 || signal == 23 || signal
            == 28),
        (spec_default_action(signal) == SignalDefault::Continue) <==> signal == 18,
        (spec_default_action(signal) == SignalDefault::Terminate) <==> !(signal == 17 || signal == 18
            || signal == 19 || signal == 20 || signal == 21 || signal == 22 || signal == 23 || signal
            == 28),
{
}

/// A job-control stop signal (19 to 22) that is not blocked and whose action is the
/// default (`SIG_DFL`, 0) stops the process.
pub proof fn lemma_stop_signals_stop(blocked: u64, action: SignalAction, info: SignalInfo, h: bool)
    requires
        19 <= info.signal <= 22,
        action.handler == 0,
        blocked & (1u64 << ((info.signal - 1) as u64)) == 0,
    ensures
        spec_delivery_for(blocked, action, info, h) == SignalDelivery::Stop(info),
{
}

/// `SIGKILL` always ends the process unless it is ignored or caught, whatever the mask.
pub proof fn lemma_sigkill_not_blockable(blocked: u64, action: SignalAction, info: SignalInfo, h: bool)
    requires
        info.signal == SIGKILL,
        action.handler == SIG_DFL,
    ensures
        spec_delivery_for(blocked, action, info, h) == SignalDelivery::Exit(info),
{
}

/// A signal is left pending (delivery `Nothing`) exactly when the mask blocks it.
pub proof fn lemma_delivery_none_iff_blocked(
    blocked: u64,
    action: SignalAction,
    info: SignalInfo,
    h: bool,
)
    ensures
        (spec_delivery_for(blocked, action, info, h) == SignalDelivery::Nothing) <==> spec_is_blocked(
            blocked,
            info.signal,
        ),
{
}

} // verus!
