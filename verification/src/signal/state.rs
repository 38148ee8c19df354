//! The signal state of a task: its blocked mask, the signals pending for it, its
//! `sigsuspend` bookkeeping and its alternate stack, together with the table of actions
//! that the threads of one process share.
use vstd::prelude::*;

use super::abi::{
    SA_ONSTACK, SIGCHLD, SIGCONT, SIGKILL, SIGNAL_MAX, SIGSTOP, SIGTSTP, SIGTTIN, SIGTTOU,
    SIG_BLOCK, SIG_DFL, SIG_IGN, SIG_SETMASK, SIG_UNBLOCK, SS_AUTODISARM, SS_ONSTACK, SigSet,
    SignalAction, SignalInfo, SignalStack, altstack_contains, altstack_enabled, altstack_status,
    default_action_record, disabled_stack, mask_has, sigbit, signal_altstack_config_enabled,
    signal_altstack_contains_sp, signal_altstack_disable, signal_altstack_format_old,
    signal_altstack_store, signal_altstack_validate_new, signal_stack_base, spec_sigbit,
    stored_altstack,
};
use super::delivery::{
    SignalDelivery, delivery_for, is_blocked, lemma_sanitize_mask, sanitize_mask,
    spec_delivery_for, spec_is_blocked, spec_sanitize_mask,
};
use crate::errno::SysErr;

verus! {

/// Number of slots in the per-signal tables: signal numbers 1..=64 index them directly.
pub const SIGNAL_SLOTS: usize = 65;

/// The mask bits of `SIGKILL` and `SIGSTOP`.
pub const UNBLOCKABLE_MASK: u64 = 0x40100;

/// The bits of `SIGKILL` and `SIGSTOP` are the two bits of `UNBLOCKABLE_MASK`, and
/// sanitizing clears exactly them.
pub proof fn lemma_unblockable_mask(mask: u64)
    ensures
        spec_sigbit(SIGKILL) | spec_sigbit(SIGSTOP) == UNBLOCKABLE_MASK,
        spec_sanitize_mask(mask) == mask & !UNBLOCKABLE_MASK,
        spec_sanitize_mask(mask) & UNBLOCKABLE_MASK == 0,
{
    assert((1u64 << 8u64) | (1u64 << 18u64) == 0x40100u64) by (bit_vector);
    assert((mask & !0x40100u64) & 0x40100u64 == 0) by (bit_vector);
}

/// The successor of a version counter, which wraps around.
pub open spec fn next_version(v: u64) -> u64 {
    if v == u64::MAX {
        0
    } else {
        (v + 1) as u64
    }
}

fn bump_version(v: u64) -> (r: u64)
    ensures
        r == next_version(v),
{
    if v == u64::MAX {
        0
    } else {
        v + 1
    }
}

/// The actions of signals 0..=64; the threads of one process share one table.
pub struct SignalActions {
    actions: Vec<SignalAction>,
}

/// Whether an action runs a user handler.
pub open spec fn is_caught(action: SignalAction) -> bool {
    action.handler != SIG_DFL && action.handler != SIG_IGN
}

impl View for SignalActions {
    type V = Seq<SignalAction>;

    closed spec fn view(&self) -> Seq<SignalAction> {
        self.actions@
    }
}

impl SignalActions {
    /// The table holds one action per slot.
    pub closed spec fn wf(&self) -> bool {
        self.actions@.len() == SIGNAL_SLOTS
    }

    /// Every signal with its default action.
    pub fn new() -> (r: Self)
        ensures
            r.wf(),
            r@.len() == SIGNAL_SLOTS,
            forall|i: int| 0 <= i < SIGNAL_SLOTS ==> #[trigger] r@[i] == default_action_record(),
    {
        let mut actions: Vec<SignalAction> = Vec::with_capacity(SIGNAL_SLOTS);
        let mut i: usize = 0;
        while i < SIGNAL_SLOTS
            invariant
                i <= SIGNAL_SLOTS,
                actions@.len() == i,
                forall|j: int| 0 <= j < i ==> #[trigger] actions@[j] == default_action_record(),
            decreases SIGNAL_SLOTS - i,
        {
            actions.push(SignalAction::default_for(i as u8));
            i = i + 1;
        }
        SignalActions { actions }
    }

    /// A copy of the table, for a forked process that no longer shares it.
    pub fn fork_copy(&self) -> (r: Self)
        requires
            self.wf(),
        ensures
            r.wf(),
            r@ == self@,
    {
        SignalActions { actions: self.actions.clone() }
    }

    /// The action of `signal`; `None` for a number above 64.
    pub fn action(&self, signal: u8) -> (r: Option<SignalAction>)
        requires
            self.wf(),
        ensures
            r == (if (signal as int) < SIGNAL_SLOTS {
                Some(self@[signal as int])
            } else {
                None
            }),
    {
        let index = signal as usize;
        if index < self.actions.len() {
            Some(self.actions[index])
        } else {
            None
        }
    }

    /// Sets the action of `signal`; refused (`false`, nothing changed) for 0, numbers above
    /// 64, `SIGKILL` and `SIGSTOP`.
    pub fn set_action(&mut self, signal: u8, action: SignalAction) -> (r: bool)
        requires
            old(self).wf(),
        ensures
            final(self).wf(),
            r == (signal != 0 && signal as int <= SIGNAL_MAX && signal != SIGKILL && signal
                != SIGSTOP),
            r ==> final(self)@ == old(self)@.update(signal as int, action),
            !r ==> final(self)@ == old(self)@,
    {
        let index = signal as usize;
        if index == 0 || index > SIGNAL_MAX || signal == SIGKILL || signal == SIGSTOP {
            return false;
        }
        self.actions.set(index, action);
        true
    }

    /// Resets every caught signal to its default action, as `execve` does; ignored and
    /// default actions stay.
    pub fn reset_caught(&mut self)
        requires
            old(self).wf(),
        ensures
            final(self).wf(),
            final(self)@[0] == old(self)@[0],
            forall|i: int|
                1 <= i < SIGNAL_SLOTS ==> #[trigger] final(self)@[i] == (if is_caught(old(self)@[i]) {
                    default_action_record()
                } else {
                    old(self)@[i]
                }),
    {
        let mut signal: usize = 1;
        while signal <= SIGNAL_MAX
            invariant
                1 <= signal <= SIGNAL_SLOTS,
                self.actions@.len() == SIGNAL_SLOTS,
                old(self)@.len() == SIGNAL_SLOTS,
                self.actions@[0] == old(self)@[0],
                forall|i: int|
                    1 <= i < signal ==> #[trigger] self.actions@[i] == (if is_caught(old(self)@[i]) {
                        default_action_record()
                    } else {
                        old(self)@[i]
                    }),
                forall|i: int| signal <= i < SIGNAL_SLOTS ==> #[trigger] self.actions@[i] == old(self)@[i],
            decreases SIGNAL_SLOTS - signal,
        {
            let action = self.actions[signal];
            if action.handler != SIG_DFL && action.handler != SIG_IGN {
                self.actions.set(signal, SignalAction::default_for(signal as u8));
            }
            signal = signal + 1;
        }
    }
}

/// What a task's signal state holds.
pub struct SignalStateView {
    pub blocked: u64,
    pub pending: Seq<Option<SignalInfo>>,
    pub suspend_mask: Option<u64>,
    pub altstack: SignalStack,
    pub version: u64,
}

/// The signal state of one task.
pub struct SignalState {
    blocked: SigSet,
    pending: Vec<Option<SignalInfo>>,
    suspend_mask: Option<SigSet>,
    altstack: SignalStack,
    version: u64,
}

impl View for SignalState {
    type V = SignalStateView;

    closed spec fn view(&self) -> SignalStateView {
        SignalStateView {
            blocked: self.blocked,
            pending: self.pending@,
            suspend_mask: self.suspend_mask,
            altstack: self.altstack,
            version: self.version,
        }
    }
}

/// The invariant of a signal state: one pending slot per signal number, each slot holding
/// only its own signal and slot 0 empty, and neither the blocked mask nor the saved
/// `sigsuspend` mask holding `SIGKILL` or `SIGSTOP`.
pub open spec fn state_wf(v: SignalStateView) -> bool {
    &&& v.pending.len() == SIGNAL_SLOTS
    &&& v.pending[0] is None
    &&& forall|i: int|
        0 <= i < SIGNAL_SLOTS && #[trigger] v.pending[i] is Some ==> v.pending[i]->0.signal == i
    &&& v.blocked & UNBLOCKABLE_MASK == 0
    &&& v.suspend_mask is Some ==> v.suspend_mask->0 & UNBLOCKABLE_MASK == 0
}

/// Whether the signal pending in slot `i` would do something now.
pub open spec fn deliverable(v: SignalStateView, actions: Seq<SignalAction>, h: bool, i: int) -> bool {
    &&& 1 <= i <= 64
    &&& v.pending[i] is Some
    &&& spec_delivery_for(v.blocked, actions[i], v.pending[i]->0, h) != SignalDelivery::Nothing
}

/// Whether the signal pending in slot `i` is selected by the (sanitized) `mask`.
pub open spec fn pending_in_mask(v: SignalStateView, mask: u64, i: int) -> bool {
    &&& 1 <= i <= 64
    &&& v.pending[i] is Some
    &&& mask_has(spec_sanitize_mask(mask), v.pending[i]->0.signal)
}

/// The pending slots after `info` is queued: `SIGCONT` discards pending stop signals, a stop
/// signal discards a pending `SIGCONT`, and the slot of `info.signal` then holds `info`.
pub open spec fn pending_after_enqueue(p: Seq<Option<SignalInfo>>, info: SignalInfo) -> Seq<
    Option<SignalInfo>,
> {
    let cleared = if info.signal == SIGCONT {
        p.update(SIGSTOP as int, None).update(SIGTSTP as int, None).update(SIGTTIN as int, None).update(
            SIGTTOU as int,
            None,
        )
    } else if info.signal == SIGSTOP || info.signal == SIGTSTP || info.signal == SIGTTIN
        || info.signal == SIGTTOU {
        p.update(SIGCONT as int, None)
    } else {
        p
    };
    cleared.update(info.signal as int, Some(info))
}

impl SignalState {
    /// The invariant of the state.
    pub open spec fn wf(&self) -> bool {
        state_wf(self@)
    }

    fn empty_pending() -> (r: Vec<Option<SignalInfo>>)
        ensures
            r@.len() == SIGNAL_SLOTS,
            forall|i: int| 0 <= i < SIGNAL_SLOTS ==> #[trigger] r@[i] is None,
    {
        let mut pending: Vec<Option<SignalInfo>> = Vec::with_capacity(SIGNAL_SLOTS);
        let mut i: usize = 0;
        while i < SIGNAL_SLOTS
            invariant
                i <= SIGNAL_SLOTS,
                pending@.len() == i,
                forall|j: int| 0 <= j < i ==> #[trigger] pending@[j] is None,
            decreases SIGNAL_SLOTS - i,
        {
            pending.push(None);
            i = i + 1;
        }
        pending
    }

    /// A task with nothing blocked or pending and no alternate stack.
    pub fn new() -> (r: Self)
        ensures
            r.wf(),
            r@.blocked == 0,
            forall|i: int| 0 <= i < SIGNAL_SLOTS ==> #[trigger] r@.pending[i] is None,
            r@.suspend_mask is None,
            r@.altstack == disabled_stack(),
            r@.version == 1,
    {
        let r = SignalState {
            blocked: 0,
            pending: Self::empty_pending(),
            suspend_mask: None,
            altstack: SignalStack::disabled(),
            version: 1,
        };
        assert(0u64 & UNBLOCKABLE_MASK == 0) by (bit_vector);
        r
    }

    /// The state of a new thread: the same blocked mask and alternate stack, nothing
    /// pending. (The threads keep sharing one `SignalActions`.)
    pub fn clone_for_thread(&self) -> (r: Self)
        requires
            self.wf(),
        ensures
            r.wf(),
            r@.blocked == self@.blocked,
            forall|i: int| 0 <= i < SIGNAL_SLOTS ==> #[trigger] r@.pending[i] is None,
            r@.suspend_mask is None,
            r@.altstack == self@.altstack,
            r@.version == 1,
    {
        SignalState {
            blocked: self.blocked,
            pending: Self::empty_pending(),
            suspend_mask: None,
            altstack: self.altstack,
            version: 1,
        }
    }

    /// The state of a forked child: as for a new thread. (The child gets its own copy of
    /// the actions, see `SignalActions::fork_copy`.)
    pub fn fork_copy(&self) -> (r: Self)
        requires
            self.wf(),
        ensures
            r.wf(),
            r@.blocked == self@.blocked,
            forall|i: int| 0 <= i < SIGNAL_SLOTS ==> #[trigger] r@.pending[i] is None,
            r@.suspend_mask is None,
            r@.altstack == self@.altstack,
            r@.version == 1,
    {
        self.clone_for_thread()
    }

    /// A counter that changes whenever a signal is queued or taken by mask.
    pub fn version(&self) -> (r: u64)
        ensures
            r == self@.version,
    {
        self.version
    }

    /// The blocked mask.
    pub fn blocked(&self) -> (r: SigSet)
        ensures
            r == self@.blocked,
    {
        self.blocked
    }

    /// Replaces the blocked mask, without `SIGKILL` and `SIGSTOP`.
    pub fn set_blocked_mask(&mut self, mask: SigSet)
        requires
            old(self).wf(),
        ensures
            final(self).wf(),
            final(self)@ == (SignalStateView { blocked: spec_sanitize_mask(mask), ..old(self)@ }),
    {
        proof {
            lemma_unblockable_mask(mask);
        }
        self.blocked = sanitize_mask(mask);
    }

    /// Restores a saved blocked mask, without `SIGKILL` and `SIGSTOP`.
    pub fn restore_mask(&mut self, mask: SigSet)
        requires
            old(self).wf(),
        ensures
            final(self).wf(),
            final(self)@ == (SignalStateView { blocked: spec_sanitize_mask(mask), ..old(self)@ }),
    {
        self.set_blocked_mask(mask);
    }

    /// What `execve` does to signals: caught signals go back to their default action, and
    /// `sigsuspend` bookkeeping and the alternate stack are dropped.
    pub fn prepare_for_exec(&mut self, actions: &mut SignalActions)
        requires
            old(self).wf(),
            old(actions).wf(),
        ensures
            final(self).wf(),
            final(actions).wf(),
            final(self)@ == (SignalStateView {
                suspend_mask: None,
                altstack: disabled_stack(),
                ..old(self)@
            }),
            final(actions)@[0] == old(actions)@[0],
            forall|i: int|
                1 <= i < SIGNAL_SLOTS ==> #[trigger] final(actions)@[i] == (if is_caught(
                    old(actions)@[i],
                ) {
                    default_action_record()
                } else {
                    old(actions)@[i]
                }),
    {
        actions.reset_caught();
        self.suspend_mask = None;
        signal_altstack_disable(&mut self.altstack);
    }

    /// `sigprocmask`: `SIG_BLOCK` adds `set`, `SIG_UNBLOCK` removes it, `SIG_SETMASK`
    /// replaces the mask, each without `SIGKILL` and `SIGSTOP`; any other `how` changes
    /// nothing.
    pub fn set_mask(&mut self, how: u64, set: SigSet)
        requires
            old(self).wf(),
        ensures
            final(self).wf(),
            final(self)@ == (SignalStateView {
                blocked: if how == SIG_BLOCK {
                    old(self)@.blocked | spec_sanitize_mask(set)
                } else if how == SIG_UNBLOCK {
                    old(self)@.blocked & !spec_sanitize_mask(set)
                } else if how == SIG_SETMASK {
                    spec_sanitize_mask(set)
                } else {
                    old(self)@.blocked
                },
                ..old(self)@
            }),
    {
        let b = self.blocked;
        let s = sanitize_mask(set);
        proof {
            lemma_unblockable_mask(set);
            assert(b & 0x40100u64 == 0 && s & 0x40100u64 == 0 ==> (b | s) & 0x40100u64 == 0
                && (b & !s) & 0x40100u64 == 0) by (bit_vector);
        }
        if how == SIG_BLOCK {
            self.blocked = b | s;
        } else if how == SIG_UNBLOCK {
            self.blocked = b & !s;
        } else if how == SIG_SETMASK {
            self.blocked = s;
        }
    }

    /// Queues a signal. A number of 0 or above 64 is dropped (`false`, nothing changed);
    /// otherwise the slot of the signal holds `info` (replacing an earlier one), `SIGCONT`
    /// discards pending stop signals and a stop signal discards a pending `SIGCONT`, the
    /// version moves on, and `true` tells the caller to wake the task's waiters.
    pub fn enqueue(&mut self, info: SignalInfo) -> (r: bool)
        requires
            old(self).wf(),
        ensures
            final(self).wf(),
            r == (1 <= info.signal <= 64),
            r ==> final(self)@ == (SignalStateView {
                pending: pending_after_enqueue(old(self)@.pending, info),
                version: next_version(old(self)@.version),
                ..old(self)@
            }),
            !r ==> final(self)@ == old(self)@,
    {
        let index = info.signal as usize;
        if index == 0 || index > SIGNAL_MAX {
            return false;
        }
        if info.signal == SIGCONT {
            self.pending.set(SIGSTOP as usize, None);
            self.pending.set(SIGTSTP as usize, None);
            self.pending.set(SIGTTIN as usize, None);
            self.pending.set(SIGTTOU as usize, None);
        } else if info.signal == SIGSTOP || info.signal == SIGTSTP || info.signal == SIGTTIN
            || info.signal == SIGTTOU {
            self.pending.set(SIGCONT as usize, None);
        }
        self.pending.set(index, Some(info));
        self.version = bump_version(self.version);
        assert(self.pending@ =~= pending_after_enqueue(old(self)@.pending, info));
        true
    }

    /// Whether some pending signal is not blocked.
    pub fn has_unblocked_pending(&self) -> (r: bool)
        requires
            self.wf(),
        ensures
            r == (exists|i: int|
                1 <= i <= 64 && #[trigger] self@.pending[i] is Some && !spec_is_blocked(
                    self@.blocked,
                    self@.pending[i]->0.signal,
                )),
    {
        let mut signal: usize = 1;
        while signal <= SIGNAL_MAX
            invariant
                1 <= signal <= SIGNAL_SLOTS,
                self.wf(),
                forall|i: int|
                    1 <= i < signal ==> !(#[trigger] self@.pending[i] is Some && !spec_is_blocked(
                        self@.blocked,
                        self@.pending[i]->0.signal,
                    )),
            decreases SIGNAL_SLOTS - signal,
        {
            match self.pending[signal] {
                Some(info) => {
                    if !is_blocked(self.blocked, info.signal) {
                        return true;
                    }
                },
                None => {},
            }
            signal = signal + 1;
        }
        false
    }

    /// Whether some pending signal would do something now.
    pub fn has_deliverable(&self, actions: &SignalActions, handlers_supported: bool) -> (r: bool)
        requires
            self.wf(),
            actions.wf(),
        ensures
            r == (exists|i: int| #[trigger] deliverable(self@, actions@, handlers_supported, i)),
    {
        let mut signal: usize = 1;
        while signal <= SIGNAL_MAX
            invariant
                1 <= signal <= SIGNAL_SLOTS,
                self.wf(),
                actions.wf(),
                forall|i: int|
                    i < signal ==> !#[trigger] deliverable(self@, actions@, handlers_supported, i),
            decreases SIGNAL_SLOTS - signal,
        {
            match self.pending[signal] {
                Some(info) => {
                    let action = actions.actions[signal];
                    match delivery_for(self.blocked, action, info, handlers_supported) {
                        SignalDelivery::Nothing => {},
                        _ => {
                            assert(deliverable(self@, actions@, handlers_supported, signal as int));
                            return true;
                        },
                    }
                },
                None => {},
            }
            signal = signal + 1;
        }
        false
    }

    /// Takes the lowest-numbered pending signal that would do something now and says what
    /// it does; that slot is emptied. `Nothing` (and no change) when no pending signal would
    /// do anything.
    pub fn take_next_delivery(&mut self, actions: &SignalActions, handlers_supported: bool) -> (r:
        SignalDelivery)
        requires
            old(self).wf(),
            actions.wf(),
        ensures
            final(self).wf(),
            (r != SignalDelivery::Nothing) <==> (exists|i: int|
                #[trigger] deliverable(old(self)@, actions@, handlers_supported, i)),
            r == SignalDelivery::Nothing ==> final(self)@ == old(self)@,
            r != SignalDelivery::Nothing ==> exists|i: int|
                {
                    &&& #[trigger] deliverable(old(self)@, actions@, handlers_supported, i)
                    &&& forall|j: int|
                        j < i ==> !#[trigger] deliverable(old(self)@, actions@, handlers_supported, j)
                    &&& r == spec_delivery_for(
                        old(self)@.blocked,
                        actions@[i],
                        old(self)@.pending[i]->0,
                        handlers_supported,
                    )
                    &&& final(self)@ == (SignalStateView {
                        pending: old(self)@.pending.update(i, None),
                        ..old(self)@
                    })
                },
    {
        let mut signal: usize = 1;
        while signal <= SIGNAL_MAX
            invariant
                1 <= signal <= SIGNAL_SLOTS,
                self@ == old(self)@,
                self.wf(),
                actions.wf(),
                forall|i: int|
                    i < signal ==> !#[trigger] deliverable(self@, actions@, handlers_supported, i),
            decreases SIGNAL_SLOTS - signal,
        {
            match self.pending[signal] {
                Some(info) => {
                    let action = actions.actions[signal];
                    let delivery = delivery_for(self.blocked, action, info, handlers_supported);
                    match delivery {
                        SignalDelivery::Nothing => {},
                        _ => {
                            assert(deliverable(self@, actions@, handlers_supported, signal as int));
                            self.pending.set(signal, None);
                            assert(self@ == (SignalStateView {
                                pending: old(self)@.pending.update(signal as int, None),
                                ..old(self)@
                            }));
                            return delivery;
                        },
                    }
                },
                None => {},
            }
            signal = signal + 1;
        }
        assert forall|i: int| !#[trigger] deliverable(old(self)@, actions@, handlers_supported, i) by {
            if i >= signal {
                assert(i > 64);
            }
        }
        SignalDelivery::Nothing
    }

    /// `sigsuspend` begins: the current mask is saved and `mask` (without `SIGKILL` and
    /// `SIGSTOP`) takes its place.
    pub fn enter_sigsuspend(&mut self, mask: SigSet)
        requires
            old(self).wf(),
        ensures
            final(self).wf(),
            final(self)@ == (SignalStateView {
                blocked: spec_sanitize_mask(mask),
                suspend_mask: Some(old(self)@.blocked),
                ..old(self)@
            }),
    {
        proof {
            lemma_unblockable_mask(mask);
        }
        self.suspend_mask = Some(self.blocked);
        self.blocked = sanitize_mask(mask);
    }

    /// `sigsuspend` ends: the saved mask, if any, is restored.
    pub fn leave_sigsuspend(&mut self)
        requires
            old(self).wf(),
        ensures
            final(self).wf(),
            final(self)@ == (match old(self)@.suspend_mask {
                Some(previous) => SignalStateView {
                    blocked: previous,
                    suspend_mask: None,
                    ..old(self)@
                },
                None => old(self)@,
            }),
    {
        match self.suspend_mask.take() {
            Some(previous) => {
                self.blocked = previous;
            },
            None => {},
        }
    }

    /// Whether a signal selected by `mask` (without `SIGKILL` and `SIGSTOP`) is pending.
    pub fn has_pending_in_mask(&self, mask: SigSet) -> (r: bool)
        requires
            self.wf(),
        ensures
            r == (exists|i: int| #[trigger] pending_in_mask(self@, mask, i)),
    {
        let masked = sanitize_mask(mask);
        let mut signal: usize = 1;
        while signal <= SIGNAL_MAX
            invariant
                1 <= signal <= SIGNAL_SLOTS,
                self.wf(),
                masked == spec_sanitize_mask(mask),
                forall|i: int| i < signal ==> !#[trigger] pending_in_mask(self@, mask, i),
            decreases SIGNAL_SLOTS - signal,
        {
            match self.pending[signal] {
                Some(info) => {
                    let bit = sigbit(info.signal);
                    proof {
                        assert(bit == 0 ==> masked & bit == 0) by (bit_vector);
                    }
                    if bit != 0 && (masked & bit) != 0 {
                        assert(pending_in_mask(self@, mask, signal as int));
                        return true;
                    }
                },
                None => {},
            }
            signal = signal + 1;
        }
        false
    }

    /// Takes the lowest-numbered pending signal selected by `mask` (without `SIGKILL` and
    /// `SIGSTOP`): its slot is emptied and the version moves on. `None` (and no change) when
    /// no such signal is pending.
    pub fn take_pending_in_mask(&mut self, mask: SigSet) -> (r: Option<SignalInfo>)
        requires
            old(self).wf(),
        ensures
            final(self).wf(),
            r is Some <==> (exists|i: int| #[trigger] pending_in_mask(old(self)@, mask, i)),
            r is None ==> final(self)@ == old(self)@,
            r is Some ==> exists|i: int|
                {
                    &&& #[trigger] pending_in_mask(old(self)@, mask, i)
                    &&& forall|j: int| j < i ==> !#[trigger] pending_in_mask(old(self)@, mask, j)
                    &&& r == old(self)@.pending[i]
                    &&& final(self)@ == (SignalStateView {
                        pending: old(self)@.pending.update(i, None),
                        version: next_version(old(self)@.version),
                        ..old(self)@
                    })
                },
    {
        let masked = sanitize_mask(mask);
        let mut signal: usize = 1;
        while signal <= SIGNAL_MAX
            invariant
                1 <= signal <= SIGNAL_SLOTS,
                self@ == old(self)@,
                self.wf(),
                masked == spec_sanitize_mask(mask),
                forall|i: int| i < signal ==> !#[trigger] pending_in_mask(self@, mask, i),
            decreases SIGNAL_SLOTS - signal,
        {
            match self.pending[signal] {
                Some(info) => {
                    let bit = sigbit(info.signal);
                    proof {
                        assert(bit == 0 ==> masked & bit == 0) by (bit_vector);
                    }
                    if bit != 0 && (masked & bit) != 0 {
                        assert(pending_in_mask(self@, mask, signal as int));
                        self.pending.set(signal, None);
                        self.version = bump_version(self.version);
                        return Some(info);
                    }
                },
                None => {},
            }
            signal = signal + 1;
        }
        assert forall|i: int| !#[trigger] pending_in_mask(old(self)@, mask, i) by {
            if i >= signal {
                assert(i > 64);
            }
        }
        None
    }

    /// The alternate stack as `sigaltstack` reports it when the user stack pointer is
    /// `user_sp`.
    pub fn altstack(&self, user_sp: u64) -> (r: SignalStack)
        ensures
            r == (SignalStack {
                ss_flags: altstack_status(self@.altstack, user_sp),
                ..self@.altstack
            }),
    {
        signal_altstack_format_old(&self.altstack, user_sp)
    }

    /// `sigaltstack`: reports the old stack and, when `new_stack` is given, installs it.
    /// A new stack that fails validation is refused with that error; so is any change while
    /// the task runs on its alternate stack (`Perm`). Nothing changes on an error.
    pub fn set_altstack(&mut self, new_stack: Option<SignalStack>, user_sp: u64) -> (r: Result<
        SignalStack,
        SysErr,
    >)
        requires
            old(self).wf(),
        ensures
            final(self).wf(),
            ({
                let old_stack = SignalStack {
                    ss_flags: altstack_status(old(self)@.altstack, user_sp),
                    ..old(self)@.altstack
                };
                match new_stack {
                    None => r == Ok::<SignalStack, SysErr>(old_stack) && final(self)@ == old(self)@,
                    Some(ns) => {
                        let check = crate::signal::state::altstack_check(ns);
                        if check is Err {
                            r == Err::<SignalStack, SysErr>(check->Err_0) && final(self)@ == old(self)@
                        } else if old_stack.ss_flags & SS_ONSTACK != 0 {
                            r == Err::<SignalStack, SysErr>(SysErr::Perm) && final(self)@ == old(self)@
                        } else {
                            r == Ok::<SignalStack, SysErr>(old_stack) && final(self)@ == (
                            SignalStateView { altstack: stored_altstack(ns), ..old(self)@ })
                        }
                    },
                }
            }),
    {
        let old_stack = signal_altstack_format_old(&self.altstack, user_sp);
        match new_stack {
            Some(new_stack) => {
                match signal_altstack_validate_new(&new_stack) {
                    Err(e) => {
                        return Err(e);
                    },
                    Ok(()) => {},
                }
                if (old_stack.ss_flags & SS_ONSTACK) != 0 {
                    return Err(SysErr::Perm);
                }
                signal_altstack_store(&mut self.altstack, &new_stack);
            },
            None => {},
        }
        Ok(old_stack)
    }

    /// After `rt_sigreturn`: the saved mask (without `SIGKILL` and `SIGSTOP`) and the saved
    /// alternate stack come back.
    pub fn restore_after_sigreturn(&mut self, mask: SigSet, altstack: SignalStack)
        requires
            old(self).wf(),
        ensures
            final(self).wf(),
            final(self)@ == (SignalStateView {
                blocked: spec_sanitize_mask(mask),
                altstack: stored_altstack(altstack),
                ..old(self)@
            }),
    {
        proof {
            lemma_unblockable_mask(mask);
        }
        self.blocked = sanitize_mask(mask);
        signal_altstack_store(&mut self.altstack, &altstack);
    }

    /// Whether a handler with `action_flags` runs on the alternate stack: it asks for one,
    /// one is configured, and the task is not already on it.
    pub fn should_use_altstack_for_signal(&self, action_flags: u64, user_sp: u64) -> (r: bool)
        ensures
            r == (action_flags & SA_ONSTACK != 0 && altstack_enabled(self@.altstack)
                && !altstack_contains(self@.altstack, user_sp)),
    {
        (action_flags & SA_ONSTACK) != 0 && signal_altstack_config_enabled(&self.altstack)
            && !signal_altstack_contains_sp(&self.altstack, user_sp)
    }

    /// The top of the alternate stack, `None` when base plus size overflows.
    pub fn altstack_top_for_signal(&self) -> (r: Option<u64>)
        ensures
            r == (if self@.altstack.ss_sp + self@.altstack.ss_size <= u64::MAX {
                Some((self@.altstack.ss_sp + self@.altstack.ss_size) as u64)
            } else {
                None
            }),
    {
        signal_stack_base(&self.altstack).checked_add(self.altstack.ss_size)
    }

    /// A handler starts on the alternate stack: a stack with `SS_AUTODISARM` is switched off.
    pub fn arm_altstack_for_signal(&mut self)
        requires
            old(self).wf(),
        ensures
            final(self).wf(),
            final(self)@ == (SignalStateView {
                altstack: if old(self)@.altstack.ss_flags & SS_AUTODISARM != 0 {
                    disabled_stack()
                } else {
                    old(self)@.altstack
                },
                ..old(self)@
            }),
    {
        if (self.altstack.ss_flags & SS_AUTODISARM) != 0 {
            signal_altstack_disable(&mut self.altstack);
        }
    }

    /// Whether a `SIGCHLD` is pending.
    pub fn has_waitable_child_signal(&self) -> (r: bool)
        requires
            self.wf(),
        ensures
            r == (self@.pending[SIGCHLD as int] is Some),
    {
        match self.pending[SIGCHLD as usize] {
            Some(info) => info.signal == SIGCHLD,
            None => false,
        }
    }
}

/// The verdict of `signal_altstack_validate_new` on `ns`.
pub open spec fn altstack_check(ns: SignalStack) -> Result<(), SysErr> {
    if ns.ss_flags & super::abi::SS_DISABLE != 0 {
        Ok(())
    } else if ns.ss_flags & !(SS_ONSTACK | SS_AUTODISARM) != 0 {
        Err(SysErr::Inval)
    } else if ns.ss_size < super::abi::MINSIGSTKSZ {
        Err(SysErr::NoMem)
    } else {
        Ok(())
    }
}

/// Whatever is done to a task's signal state, `SIGKILL` and `SIGSTOP` are never blocked.
pub proof fn lemma_kill_and_stop_never_blocked(v: SignalStateView)
    requires
        state_wf(v),
    ensures
        !mask_has(v.blocked, SIGKILL),
        !mask_has(v.blocked, SIGSTOP),
{
    lemma_unblockable_mask(v.blocked);
    let b = v.blocked;
    assert(b & 0x40100u64 == 0 ==> b & (1u64 << 8u64) == 0 && b & (1u64 << 18u64) == 0)
        by (bit_vector);
}

/// After `SIGCONT` is queued no stop signal is pending, and after a stop signal is queued
/// no `SIGCONT` is pending.
pub proof fn lemma_continue_and_stop_exclusive(p: Seq<Option<SignalInfo>>, info: SignalInfo)
    requires
        p.len() == SIGNAL_SLOTS,
        1 <= info.signal <= 64,
    ensures
        info.signal == SIGCONT ==> {
            let q = pending_after_enqueue(p, info);
            &&& q[SIGSTOP as int] is None
            &&& q[SIGTSTP as int] is None
            &&& q[SIGTTIN as int] is None
            &&& q[SIGTTOU as int] is None
        },
        (info.signal == SIGSTOP || info.signal == SIGTSTP || info.signal == SIGTTIN || info.signal
            == SIGTTOU) ==> pending_after_enqueue(p, info)[SIGCONT as int] is None,
        pending_after_enqueue(p, info)[info.signal as int] == Some(info),
{
}

} // verus!
