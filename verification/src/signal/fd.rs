//! Signal file descriptors (`signalfd`): a queue of the signals in a mask, read as
//! 128-byte `signalfd_siginfo` records.
use vstd::prelude::*;

use super::abi::{sigbit, spec_sigbit, SigSet, SignalInfo};
use super::state::SignalState;
use crate::fs::error::FsError;
use crate::fs::eventfd::next_version;
use crate::fs::poll::{event_if, ready_if, POLL_READ};
use crate::wire::{i32_le, push_i32, push_u32, u32_le};

verus! {

pub const SIGNALFD_SIGINFO_SIZE: usize = 128;
pub const SIGNALFD_QUEUE_LIMIT: usize = 64;

/// A signal file: the signals it takes, and those queued, oldest first.
pub struct SignalFdFile {
    mask: SigSet,
    queue: Vec<SignalInfo>,
    version: u64,
}

/// The `signalfd_siginfo` record of a signal: number, errno 0, code, sender PID and UID,
/// and the exit status at byte 40; zero elsewhere.
pub open spec fn signalfd_siginfo_bytes(info: SignalInfo) -> Seq<u8> {
    u32_le(info.signal as u32) + i32_le(0) + i32_le(info.code) + i32_le(info.pid) + u32_le(
        info.uid,
    ) + Seq::new(20, |i: int| 0u8) + i32_le(info.status) + Seq::new(84, |i: int| 0u8)
}

/// The records of `infos`, one after another.
pub open spec fn siginfo_records(infos: Seq<SignalInfo>) -> Seq<u8>
    decreases infos.len(),
{
    if infos.len() == 0 {
        Seq::empty()
    } else {
        siginfo_records(infos.drop_last()) + signalfd_siginfo_bytes(infos.last())
    }
}

fn push_zeros(out: &mut Vec<u8>, n: usize)
    ensures
        final(out)@ == old(out)@ + Seq::new(n as nat, |i: int| 0u8),
{
    let mut k: usize = 0;
    while k < n
        invariant
            k <= n,
            out@ == old(out)@ + Seq::new(k as nat, |i: int| 0u8),
        decreases n - k,
    {
        out.push(0);
        k = k + 1;
        assert(out@ =~= old(out)@ + Seq::new(k as nat, |i: int| 0u8));
    }
}

/// Appends the `signalfd_siginfo` record of `info`.
pub fn serialize_signalfd_siginfo(out: &mut Vec<u8>, info: SignalInfo)
    ensures
        final(out)@ == old(out)@ + signalfd_siginfo_bytes(info),
{
    push_u32(out, info.signal as u32);
    push_i32(out, 0);
    push_i32(out, info.code);
    push_i32(out, info.pid);
    push_u32(out, info.uid);
    push_zeros(out, 20);
    push_i32(out, info.status);
    push_zeros(out, 84);
    assert(final(out)@ =~= old(out)@ + signalfd_siginfo_bytes(info));
}

/// A signal file for the signals in `mask`, with nothing queued.
pub fn create_signalfd(_state: &SignalState, mask: SigSet) -> (r: SignalFdFile)
    ensures
        r.spec_mask() == mask,
        r.queue() == Seq::<SignalInfo>::empty(),
        r.spec_version() == 1,
        r.wf(),
{
    SignalFdFile { mask, queue: Vec::new(), version: 1 }
}

impl SignalFdFile {
    pub closed spec fn spec_mask(&self) -> SigSet {
        self.mask
    }

    pub closed spec fn queue(&self) -> Seq<SignalInfo> {
        self.queue@
    }

    pub closed spec fn spec_version(&self) -> u64 {
        self.version
    }

    /// At most `SIGNALFD_QUEUE_LIMIT` signals are queued.
    pub closed spec fn wf(&self) -> bool {
        self.queue@.len() <= SIGNALFD_QUEUE_LIMIT
    }

    /// The signals it takes.
    pub fn mask(&self) -> (r: SigSet)
        ensures
            r == self.spec_mask(),
    {
        self.mask
    }

    /// Changes the signals it takes; the queue stays.
    pub fn set_mask(&mut self, mask: SigSet)
        ensures
            final(self).spec_mask() == mask,
            final(self).queue() == old(self).queue(),
            final(self).spec_version() == old(self).spec_version(),
            old(self).wf() ==> final(self).wf(),
    {
        self.mask = mask;
    }

    /// A fresh signal file with the same mask, for another task's signal state.
    pub fn with_signal_state(&self, state: &SignalState) -> (r: Self)
        ensures
            r.spec_mask() == self.spec_mask(),
            r.queue() == Seq::<SignalInfo>::empty(),
            r.spec_version() == 1,
            r.wf(),
    {
        create_signalfd(state, self.mask)
    }

    /// A signal arrived: queued (dropping the oldest when `SIGNALFD_QUEUE_LIMIT` are
    /// queued) when the mask takes it, `true` then, so readers are woken.
    pub fn notify_signal(&mut self, info: SignalInfo) -> (r: bool)
        requires
            old(self).wf(),
        ensures
            final(self).wf(),
            final(self).spec_mask() == old(self).spec_mask(),
            r == (spec_sigbit(info.signal) != 0 && old(self).spec_mask() & spec_sigbit(info.signal)
                != 0),
            !r ==> *final(self) == *old(self),
            r ==> final(self).queue() == (if old(self).queue().len() >= SIGNALFD_QUEUE_LIMIT {
                old(self).queue().drop_first()
            } else {
                old(self).queue()
            }).push(info) && final(self).spec_version() == next_version(old(self).spec_version()),
    {
        let bit = sigbit(info.signal);
        if bit == 0 || (self.mask & bit) == 0 {
            return false;
        }
        if self.queue.len() >= SIGNALFD_QUEUE_LIMIT {
            let _ = self.queue.remove(0);
        }
        self.queue.push(info);
        self.version = self.version.wrapping_add(1);
        true
    }

    /// Reads into a buffer of `buffer_len` bytes: nothing for an empty buffer,
    /// `InvalidInput` when it cannot hold one record, `WouldBlock` when nothing is queued;
    /// else as many queued signals as fit, oldest first.
    pub fn read(&mut self, buffer_len: usize) -> (r: Result<Vec<u8>, FsError>)
        requires
            old(self).wf(),
        ensures
            final(self).wf(),
            final(self).spec_mask() == old(self).spec_mask(),
            buffer_len == 0 ==> (r matches Ok(v) && v@.len() == 0) && *final(self) == *old(self),
            0 < buffer_len < SIGNALFD_SIGINFO_SIZE ==> r == Err::<Vec<u8>, FsError>(
                FsError::InvalidInput,
            ) && *final(self) == *old(self),
            buffer_len >= SIGNALFD_SIGINFO_SIZE && old(self).queue().len() == 0 ==> r == Err::<
                Vec<u8>,
                FsError,
            >(FsError::WouldBlock) && *final(self) == *old(self),
            buffer_len >= SIGNALFD_SIGINFO_SIZE && old(self).queue().len() > 0 ==> {
                let n = if old(self).queue().len() < buffer_len / SIGNALFD_SIGINFO_SIZE {
                    old(self).queue().len() as int
                } else {
                    (buffer_len / SIGNALFD_SIGINFO_SIZE) as int
                };
                &&& r matches Ok(v) && v@ == siginfo_records(old(self).queue().take(n))
                &&& final(self).queue() == old(self).queue().skip(n)
                &&& final(self).spec_version() == next_version(old(self).spec_version())
            },
    {
        if buffer_len == 0 {
            return Ok(Vec::new());
        }
        if buffer_len < SIGNALFD_SIGINFO_SIZE {
            return Err(FsError::InvalidInput);
        }
        if self.queue.len() == 0 {
            return Err(FsError::WouldBlock);
        }
        let ghost q = self.queue@;
        let room = buffer_len / SIGNALFD_SIGINFO_SIZE;
        let mut out: Vec<u8> = Vec::new();
        let mut taken: usize = 0;
        while taken < room && self.queue.len() > 0
            invariant
                taken <= room,
                taken <= q.len(),
                self.queue@ == q.skip(taken as int),
                out@ == siginfo_records(q.take(taken as int)),
                self.mask == old(self).mask,
                self.version == old(self).version,
                q == old(self).queue@,
            decreases room - taken,
        {
            let info = self.queue.remove(0);
            proof {
                assert(info == q[taken as int]);
                assert(q.take(taken + 1).drop_last() =~= q.take(taken as int));
            }
            serialize_signalfd_siginfo(&mut out, info);
            taken = taken + 1;
            assert(self.queue@ =~= q.skip(taken as int));
        }
        self.version = self.version.wrapping_add(1);
        Ok(out)
    }

    /// Reading is ready while a signal is queued.
    pub fn poll(&self, requested: u32) -> (r: u32)
        ensures
            r == event_if(requested, POLL_READ, self.queue().len() > 0),
    {
        ready_if(requested, POLL_READ, self.queue.len() > 0)
    }

    /// The version that changes whenever a signal is queued or read.
    pub fn version(&self) -> (r: u64)
        ensures
            r == self.spec_version(),
    {
        self.version
    }
}

/// Whether a waiter for `events` is kept: only one that wants reading.
pub fn signalfd_waits_for(events: u32) -> (r: bool)
    ensures
        r == (events & POLL_READ != 0),
{
    (events & POLL_READ) != 0
}

} // verus!
