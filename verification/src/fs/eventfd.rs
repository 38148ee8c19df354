//! Event counters (`eventfd`): writes add to a 64-bit counter, reads take it (or, in
//! semaphore mode, one unit of it).
use vstd::prelude::*;

use super::error::FsError;
use super::poll::{event_if, ready_if, POLL_READ, POLL_WRITE};
use crate::wire::{le_u64_at, read_u64_at};

verus! {

pub const EFD_SEMAPHORE: u64 = 0x1;
pub const EFD_NONBLOCK: u64 = 0o0004000;
pub const EFD_CLOEXEC: u64 = 0o2000000;
pub const EFD_VALID_FLAGS: u64 = EFD_SEMAPHORE | EFD_NONBLOCK | EFD_CLOEXEC;

/// The largest value the counter holds.
pub const EVENTFD_COUNTER_MAX: u64 = 0xffff_ffff_ffff_fffe;

/// An event counter.
pub struct EventFdFile {
    counter: u64,
    semaphore: bool,
    version: u64,
}

/// What a read took: the value to hand out, and whether the counter was full (writers
/// may now proceed).
#[derive(Debug, Clone, Copy, PartialEq, Eq, Structural)]
pub struct EventFdRead {
    pub value: u64,
    pub wake_writers: bool,
}

/// What a write did: whether it changed the counter, and whether the counter was empty
/// before (readers may now proceed).
#[derive(Debug, Clone, Copy, PartialEq, Eq, Structural)]
pub struct EventFdWrite {
    pub changed: bool,
    pub wake_readers: bool,
}

/// `v + 1`, wrapping.
pub open spec fn next_version(v: u64) -> u64 {
    if v == u64::MAX {
        0
    } else {
        (v + 1) as u64
    }
}

fn bump_version(v: u64) -> (r: u64)
    ensures
        r == next_version(v),
{
    v.wrapping_add(1)
}

/// A counter starting at `initval`; `EFD_SEMAPHORE` in `flags` makes each read take one.
pub fn create_eventfd(initval: u32, flags: u64) -> (r: EventFdFile)
    ensures
        r.counter() == initval,
        r.is_semaphore() == (flags & EFD_SEMAPHORE != 0),
        r.spec_version() == 1,
        r.wf(),
{
    EventFdFile { counter: initval as u64, semaphore: (flags & EFD_SEMAPHORE) != 0, version: 1 }
}

impl EventFdFile {
    pub closed spec fn counter(&self) -> u64 {
        self.counter
    }

    pub closed spec fn is_semaphore(&self) -> bool {
        self.semaphore
    }

    pub closed spec fn spec_version(&self) -> u64 {
        self.version
    }

    /// The counter never exceeds `EVENTFD_COUNTER_MAX`.
    pub closed spec fn wf(&self) -> bool {
        self.counter <= EVENTFD_COUNTER_MAX
    }

    /// The version that changes on every read and every write that adds something.
    pub fn version(&self) -> (r: u64)
        ensures
            r == self.spec_version(),
    {
        self.version
    }

    /// Reads into a buffer of `buffer_len` bytes: `InvalidInput` below 8 bytes,
    /// `WouldBlock` at zero; else takes the whole counter, or one in semaphore mode.
    pub fn read(&mut self, buffer_len: usize) -> (r: Result<EventFdRead, FsError>)
        requires
            old(self).wf(),
        ensures
            final(self).wf(),
            final(self).is_semaphore() == old(self).is_semaphore(),
            buffer_len < 8 ==> r == Err::<EventFdRead, FsError>(FsError::InvalidInput) && *final(self) == *old(self),
            buffer_len >= 8 && old(self).counter() == 0 ==> r == Err::<EventFdRead, FsError>(
                FsError::WouldBlock,
            ) && *final(self) == *old(self),
            buffer_len >= 8 && old(self).counter() != 0 ==> {
                &&& r == Ok::<EventFdRead, FsError>(
                    EventFdRead {
                        value: if old(self).is_semaphore() {
                            1
                        } else {
                            old(self).counter()
                        },
                        wake_writers: old(self).counter() == EVENTFD_COUNTER_MAX,
                    },
                )
                &&& final(self).counter() == if old(self).is_semaphore() {
                    (old(self).counter() - 1) as u64
                } else {
                    0
                }
                &&& final(self).spec_version() == next_version(old(self).spec_version())
            },
    {
        if buffer_len < 8 {
            return Err(FsError::InvalidInput);
        }
        if self.counter == 0 {
            return Err(FsError::WouldBlock);
        }
        let was_full = self.counter == EVENTFD_COUNTER_MAX;
        let value = if self.semaphore {
            self.counter = self.counter - 1;
            1
        } else {
            let v = self.counter;
            self.counter = 0;
            v
        };
        self.version = bump_version(self.version);
        Ok(EventFdRead { value, wake_writers: was_full })
    }

    /// Writes the native `u64` at the start of `buffer`: `InvalidInput` below 8 bytes or
    /// for `u64::MAX`, `WouldBlock` when it would pass `EVENTFD_COUNTER_MAX`; else adds
    /// it.
    pub fn write(&mut self, buffer: &[u8]) -> (r: Result<EventFdWrite, FsError>)
        requires
            old(self).wf(),
        ensures
            final(self).wf(),
            final(self).is_semaphore() == old(self).is_semaphore(),
            buffer@.len() < 8 ==> r == Err::<EventFdWrite, FsError>(FsError::InvalidInput)
                && *final(self) == *old(self),
            buffer@.len() >= 8 && le_u64_at(buffer@, 0) == u64::MAX ==> r == Err::<
                EventFdWrite,
                FsError,
            >(FsError::InvalidInput) && *final(self) == *old(self),
            buffer@.len() >= 8 && le_u64_at(buffer@, 0) != u64::MAX && le_u64_at(buffer@, 0)
                > EVENTFD_COUNTER_MAX - old(self).counter() ==> r == Err::<EventFdWrite, FsError>(
                FsError::WouldBlock,
            ) && *final(self) == *old(self),
            buffer@.len() >= 8 && le_u64_at(buffer@, 0) <= EVENTFD_COUNTER_MAX - old(self).counter() ==> {
                let v = le_u64_at(buffer@, 0);
                &&& r == Ok::<EventFdWrite, FsError>(
                    EventFdWrite { changed: v != 0, wake_readers: old(self).counter() == 0 && v != 0 },
                )
                &&& final(self).counter() == old(self).counter() + v
                &&& final(self).spec_version() == if v != 0 {
                    next_version(old(self).spec_version())
                } else {
                    old(self).spec_version()
                }
            },
    {
        if buffer.len() < 8 {
            return Err(FsError::InvalidInput);
        }
        let value = read_u64_at(buffer, 0);
        if value == u64::MAX {
            return Err(FsError::InvalidInput);
        }
        let available = EVENTFD_COUNTER_MAX - self.counter;
        if value > available {
            return Err(FsError::WouldBlock);
        }
        let was_empty = self.counter == 0;
        self.counter = self.counter + value;
        if value != 0 {
            self.version = bump_version(self.version);
        }
        Ok(EventFdWrite { changed: value != 0, wake_readers: was_empty && value != 0 })
    }

    /// Which of the `requested` events are ready: reading while the counter is not zero,
    /// writing while it is below `EVENTFD_COUNTER_MAX`.
    pub fn poll(&self, requested: u32) -> (r: u32)
        ensures
            r == event_if(requested, POLL_READ, self.counter() != 0) | event_if(
                requested,
                POLL_WRITE,
                self.counter() < EVENTFD_COUNTER_MAX,
            ),
    {
        ready_if(requested, POLL_READ, self.counter != 0) | ready_if(
            requested,
            POLL_WRITE,
            self.counter < EVENTFD_COUNTER_MAX,
        )
    }
}

} // verus!
