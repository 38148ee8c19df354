//! The `timespec` record and the clock IDs of the Linux ABI.
use vstd::prelude::*;

use crate::errno::{SysErr, SysResult};
use crate::wire::{i64_le, le_i64_at, push_i64, read_i64_at};

verus! {

pub const CLOCK_REALTIME: u64 = 0;
pub const CLOCK_MONOTONIC: u64 = 1;
pub const CLOCK_BOOTTIME: u64 = 7;
pub const CLOCK_REALTIME_ALARM: u64 = 8;
pub const CLOCK_BOOTTIME_ALARM: u64 = 9;

pub const NANOS_PER_SEC: u64 = 1_000_000_000;

/// Seconds and nanoseconds, as `struct timespec`.
#[derive(Debug, Clone, Copy, PartialEq, Eq, Structural)]
pub struct LinuxTimespec {
    pub tv_sec: i64,
    pub tv_nsec: i64,
}

/// Whether a `timespec` is a valid duration: no negative part, fewer than 10^9 nanoseconds.
pub open spec fn timespec_valid(t: LinuxTimespec) -> bool {
    t.tv_sec >= 0 && 0 <= t.tv_nsec < NANOS_PER_SEC
}

/// The nanoseconds a `timespec` stands for.
pub open spec fn timespec_nanos(t: LinuxTimespec) -> int {
    t.tv_sec * NANOS_PER_SEC + t.tv_nsec
}

/// The `timespec` of a count of nanoseconds.
pub open spec fn spec_ns_to_timespec(total: u64) -> LinuxTimespec {
    LinuxTimespec {
        tv_sec: (total / NANOS_PER_SEC) as i64,
        tv_nsec: (total % NANOS_PER_SEC) as i64,
    }
}

impl LinuxTimespec {
    /// Size of the record.
    pub const SIZE: usize = 16;

    /// The record itself when it is a valid duration, `Inval` otherwise.
    pub fn validate(self) -> (r: SysResult<Self>)
        ensures
            timespec_valid(self) ==> r == Ok::<Self, SysErr>(self),
            !timespec_valid(self) ==> r == Err::<Self, SysErr>(SysErr::Inval),
    {
        if self.tv_sec < 0 || self.tv_nsec < 0 || self.tv_nsec >= NANOS_PER_SEC as i64 {
            Err(SysErr::Inval)
        } else {
            Ok(self)
        }
    }

    /// The duration in nanoseconds; `Inval` when it is not a valid duration or does not fit
    /// in 64 bits.
    pub fn total_nanos(self) -> (r: SysResult<u64>)
        ensures
            (timespec_valid(self) && timespec_nanos(self) <= u64::MAX) ==> r == Ok::<u64, SysErr>(
                timespec_nanos(self) as u64,
            ),
            !(timespec_valid(self) && timespec_nanos(self) <= u64::MAX) ==> r == Err::<
                u64,
                SysErr,
            >(SysErr::Inval),
    {
        if self.tv_sec < 0 || self.tv_nsec < 0 || self.tv_nsec >= NANOS_PER_SEC as i64 {
            return Err(SysErr::Inval);
        }
        let secs = self.tv_sec as u64;
        match secs.checked_mul(NANOS_PER_SEC) {
            None => Err(SysErr::Inval),
            Some(whole) => match whole.checked_add(self.tv_nsec as u64) {
                None => Err(SysErr::Inval),
                Some(total) => Ok(total),
            },
        }
    }

    /// The bytes of the record.
    pub fn to_bytes(self, bytes: &mut Vec<u8>)
        ensures
            final(bytes)@ == old(bytes)@ + i64_le(self.tv_sec) + i64_le(self.tv_nsec),
    {
        push_i64(bytes, self.tv_sec);
        push_i64(bytes, self.tv_nsec);
    }
}

/// The record held at `off`.
pub open spec fn timespec_at(b: Seq<u8>, off: int) -> LinuxTimespec {
    LinuxTimespec { tv_sec: le_i64_at(b, off), tv_nsec: le_i64_at(b, off + 8) }
}

/// Reads the record at `off`.
pub fn read_timespec_at(bytes: &[u8], off: usize) -> (r: LinuxTimespec)
    requires
        off + 16 <= bytes.len(),
    ensures
        r == timespec_at(bytes@, off as int),
{
    LinuxTimespec { tv_sec: read_i64_at(bytes, off), tv_nsec: read_i64_at(bytes, off + 8) }
}

/// The `timespec` of a count of nanoseconds.
pub fn ns_to_timespec(total_ns: u64) -> (r: LinuxTimespec)
    ensures
        r == spec_ns_to_timespec(total_ns),
        timespec_valid(r),
        timespec_nanos(r) == total_ns,
{
    let r = LinuxTimespec {
        tv_sec: (total_ns / NANOS_PER_SEC) as i64,
        tv_nsec: (total_ns % NANOS_PER_SEC) as i64,
    };
    proof {
        assert(total_ns / NANOS_PER_SEC <= 18_446_744_073) by (nonlinear_arith)
            requires
                total_ns <= u64::MAX,
        ;
        assert(total_ns == (total_ns / NANOS_PER_SEC) * NANOS_PER_SEC + total_ns % NANOS_PER_SEC)
            by (nonlinear_arith);
    }
    r
}

} // verus!
