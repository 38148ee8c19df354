//! Process file descriptors: a handle on a process that becomes readable once the
//! process exits, and reports a hang-up once it is reaped.
use vstd::prelude::*;

use super::error::FsError;
use super::eventfd::next_version;
use super::poll::{event_if, ready_if, POLL_HUP, POLL_READ};
use crate::process::Pid;

verus! {

/// Where the process of a pidfd is in its life.
#[derive(Debug, Clone, Copy, PartialEq, Eq, Structural)]
pub enum PidFdState {
    Alive,
    Exited,
    Reaped,
}

/// The shared handle behind the pidfds of one process.
pub struct PidFdHandle {
    pid: Pid,
    state: PidFdState,
    version: u64,
}

impl PidFdHandle {
    pub closed spec fn spec_pid(&self) -> Pid {
        self.pid
    }

    pub closed spec fn spec_state(&self) -> PidFdState {
        self.state
    }

    pub closed spec fn spec_version(&self) -> u64 {
        self.version
    }

    /// A handle on the living process `pid`.
    pub fn new(pid: Pid) -> (r: Self)
        ensures
            r.spec_pid() == pid,
            r.spec_state() == PidFdState::Alive,
            r.spec_version() == 1,
    {
        PidFdHandle { pid, state: PidFdState::Alive, version: 1 }
    }

    /// The process.
    pub fn pid(&self) -> (r: Pid)
        ensures
            r == self.spec_pid(),
    {
        self.pid
    }

    /// The process exited: a living one becomes exited (and readers are woken, `true`);
    /// otherwise nothing changes.
    pub fn mark_exited(&mut self) -> (r: bool)
        ensures
            r == (old(self).spec_state() == PidFdState::Alive),
            final(self).spec_pid() == old(self).spec_pid(),
            r ==> final(self).spec_state() == PidFdState::Exited && final(self).spec_version()
                == next_version(old(self).spec_version()),
            !r ==> *final(self) == *old(self),
    {
        if self.state != PidFdState::Alive {
            return false;
        }
        self.state = PidFdState::Exited;
        self.version = self.version.wrapping_add(1);
        true
    }

    /// The process was reaped: the handle becomes reaped (and waiters are woken, `true`)
    /// unless it already was.
    pub fn mark_reaped(&mut self) -> (r: bool)
        ensures
            r == (old(self).spec_state() != PidFdState::Reaped),
            final(self).spec_pid() == old(self).spec_pid(),
            final(self).spec_state() == PidFdState::Reaped,
            r ==> final(self).spec_version() == next_version(old(self).spec_version()),
            !r ==> *final(self) == *old(self),
    {
        if self.state == PidFdState::Reaped {
            return false;
        }
        self.state = PidFdState::Reaped;
        self.version = self.version.wrapping_add(1);
        true
    }

    /// Which `requested` events are ready: none while alive, reading once exited, and a
    /// hang-up as well once reaped.
    pub fn ready_events(&self, requested: u32) -> (r: u32)
        ensures
            r == event_if(requested, POLL_READ, self.spec_state() != PidFdState::Alive) | event_if(
                requested,
                POLL_HUP,
                self.spec_state() == PidFdState::Reaped,
            ),
    {
        ready_if(requested, POLL_READ, self.state != PidFdState::Alive) | ready_if(
            requested,
            POLL_HUP,
            self.state == PidFdState::Reaped,
        )
    }

    /// The version that changes when the process exits or is reaped.
    pub fn wait_token(&self) -> (r: u64)
        ensures
            r == self.spec_version(),
    {
        self.version
    }
}

/// Whether a waiter for `events` is kept: only one that wants reading or a hang-up.
pub fn pidfd_waits_for(events: u32) -> (r: bool)
    ensures
        r == (events & (POLL_READ | POLL_HUP) != 0),
{
    (events & (POLL_READ | POLL_HUP)) != 0
}

/// Reading or writing a pidfd is `InvalidInput`.
pub fn pidfd_read_write() -> (r: Result<usize, FsError>)
    ensures
        r == Err::<usize, FsError>(FsError::InvalidInput),
{
    Err(FsError::InvalidInput)
}

} // verus!
