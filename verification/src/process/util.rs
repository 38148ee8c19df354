//! Small conversions used by the process system calls.
use vstd::prelude::*;

use super::ChildEventKind;
use crate::signal::abi::SigSet;
use crate::wire::{le_u64_at, read_u64_at};

verus! {

pub const WUNTRACED: u64 = 2;
pub const WCONTINUED: u64 = 8;

/// Whether a wait with `options` reports `kind`: exits always, stops only with
/// `WUNTRACED`, continues only with `WCONTINUED`.
pub fn child_event_matches_options(kind: ChildEventKind, options: u64) -> (r: bool)
    ensures
        r == match kind {
            ChildEventKind::Exited(_) => true,
            ChildEventKind::Stopped(_) => options & WUNTRACED != 0,
            ChildEventKind::Continued => options & WCONTINUED != 0,
        },
{
    match kind {
        ChildEventKind::Exited(_) => true,
        ChildEventKind::Stopped(_) => (options & WUNTRACED) != 0,
        ChildEventKind::Continued => (options & WCONTINUED) != 0,
    }
}

/// The status word `wait4` reports.
pub open spec fn spec_wait_status(kind: ChildEventKind) -> i32 {
    match kind {
        ChildEventKind::Exited(status) => if status >= 128 {
            (status - 128) as i32
        } else {
            ((status & 0xff) * 256) as i32
        },
        ChildEventKind::Stopped(signal) => ((signal as i32) * 256 + 0x7f) as i32,
        ChildEventKind::Continued => 0xffff,
    }
}

/// The status word `wait4` reports: for an exit, the exit code in bits 8..16 (or, for a
/// status of 128 or more, the number of the killing signal); `signal << 8 | 0x7f` for a
/// stop; `0xffff` for a continue.
pub fn wait_status(kind: ChildEventKind) -> (r: i32)
    ensures
        r == spec_wait_status(kind),
{
    match kind {
        ChildEventKind::Exited(status) => {
            if status >= 128 {
                status - 128
            } else {
                let low = status & 0xff;
                proof {
                    assert(0 <= status & 0xff <= 0xff) by (bit_vector);
                    assert((status & 0xff) << 8 == (status & 0xff) * 256) by (bit_vector)
                        requires
                            0 <= status & 0xff <= 0xff,
                    ;
                }
                low << 8
            }
        },
        ChildEventKind::Stopped(signal) => {
            let s = signal as i32;
            proof {
                assert(0 <= s <= 255);
                assert((s << 8) | 0x7f == s * 256 + 0x7f) by (bit_vector)
                    requires
                        0 <= s <= 255,
                ;
            }
            (s << 8) | 0x7f
        },
        ChildEventKind::Continued => 0xffff,
    }
}

/// The signal set held by up to 8 bytes, missing bytes reading as zero.
pub open spec fn sigset_from_bytes(bytes: Seq<u8>) -> u64 {
    le_u64_at(Seq::new(8, |i: int| if i < bytes.len() { bytes[i] } else { 0u8 }), 0)
}

/// Reads a signal set from user bytes; only the first 8 bytes count.
pub fn decode_sigset(bytes: &[u8]) -> (r: SigSet)
    ensures
        r == sigset_from_bytes(bytes@),
{
    let mut raw: Vec<u8> = Vec::with_capacity(8);
    let mut i: usize = 0;
    while i < 8
        invariant
            i <= 8,
            raw@ =~= Seq::new(i as nat, |k: int| if k < bytes@.len() { bytes@[k] } else { 0u8 }),
        decreases 8 - i,
    {
        if i < bytes.len() {
            raw.push(bytes[i]);
        } else {
            raw.push(0);
        }
        i = i + 1;
    }
    read_u64_at(raw.as_slice(), 0)
}

/// One `iovec` of a vectored I/O call.
#[derive(Debug, Clone, Copy, PartialEq, Eq, Structural)]
pub struct UserIoVec {
    pub base: u64,
    pub len: usize,
}

/// The `iovec` array that `count` 16-byte records hold; lengths above `usize::MAX` are
/// clamped.
pub open spec fn iovecs_from_bytes(raw: Seq<u8>, count: nat) -> Seq<UserIoVec> {
    Seq::new(
        count,
        |i: int|
            UserIoVec {
                base: le_u64_at(raw, 16 * i),
                len: if le_u64_at(raw, 16 * i + 8) > usize::MAX {
                    usize::MAX
                } else {
                    le_u64_at(raw, 16 * i + 8) as usize
                },
            },
    )
}

/// Parses the `count` records of an `iovec` array read from user memory.
pub fn parse_iovec_array(raw: &[u8], count: usize) -> (r: Vec<UserIoVec>)
    requires
        16 * count <= raw@.len(),
    ensures
        r@ == iovecs_from_bytes(raw@, count as nat),
{
    let n = raw.len();
    let mut iovecs: Vec<UserIoVec> = Vec::with_capacity(count);
    let mut i: usize = 0;
    while i < count
        invariant
            i <= count,
            n == raw@.len(),
            16 * count <= raw@.len(),
            iovecs@ =~= iovecs_from_bytes(raw@, count as nat).subrange(0, i as int),
        decreases count - i,
    {
        proof {
            assert(16 * i + 16 <= 16 * count) by (nonlinear_arith)
                requires
                    i < count,
            ;
        }
        let base = read_u64_at(raw, 16 * i);
        let len64 = read_u64_at(raw, 16 * i + 8);
        let len: usize = if len64 > usize::MAX as u64 {
            usize::MAX
        } else {
            len64 as usize
        };
        iovecs.push(UserIoVec { base, len });
        i = i + 1;
    }
    iovecs
}

} // verus!
