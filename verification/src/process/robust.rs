//! Releasing the robust futexes of an exiting task: a walk along the robust list it
//! registered, which marks each futex word the task still owns as having lost its owner.
//! The list lives in user memory: the holder reads the words the walk asks for and writes
//! the words it hands back.
use vstd::prelude::*;

verus! {

/// The size of a robust list head: the first entry, the futex offset and the pending entry.
pub const ROBUST_LIST_HEAD_LEN: u64 = 24;

/// The most entries a walk visits.
pub const ROBUST_LIST_LIMIT: usize = 2048;

/// Futex word bit: tasks wait on the futex.
pub const FUTEX_WAITERS: u32 = 0x8000_0000;

/// Futex word bit: the owner exited without releasing the futex.
pub const FUTEX_OWNER_DIED: u32 = 0x4000_0000;

/// The bits of a futex word that hold its owner's tid.
pub const FUTEX_TID_MASK: u32 = 0x3fff_ffff;

/// The addresses of the three words of a robust list head registered at `head` with length
/// `len`: none when `len` is short of a head, or when the words would run past the end of
/// the address space.
pub open spec fn spec_head_words(head: u64, len: u64) -> Option<(u64, u64, u64)> {
    if len < ROBUST_LIST_HEAD_LEN || head > u64::MAX - 16 {
        None
    } else {
        Some((head, (head + 8) as u64, (head + 16) as u64))
    }
}

/// The addresses of the words of a robust list head; see `spec_head_words`.
pub fn robust_head_words(head: u64, len: u64) -> (r: Option<(u64, u64, u64)>)
    ensures
        r == spec_head_words(head, len),
{
    if len < ROBUST_LIST_HEAD_LEN || head > u64::MAX - 16 {
        None
    } else {
        Some((head, head + 8, head + 16))
    }
}

/// The futex word of the list entry at `entry`, `futex_offset` bytes away from it; none
/// when that address is outside the address space.
pub open spec fn spec_futex_word_address(futex_offset: i64, entry: u64) -> Option<u64> {
    let a = entry + futex_offset;
    if 0 <= a <= u64::MAX {
        Some(a as u64)
    } else {
        None
    }
}

/// The futex word of a list entry; see `spec_futex_word_address`.
pub fn futex_word_address(futex_offset: i64, entry: u64) -> (r: Option<u64>)
    ensures
        r == spec_futex_word_address(futex_offset, entry),
{
    if futex_offset < 0 {
        let magnitude: u64 = if futex_offset == i64::MIN {
            0x8000_0000_0000_0000
        } else {
            (-futex_offset) as u64
        };
        entry.checked_sub(magnitude)
    } else {
        entry.checked_add(futex_offset as u64)
    }
}

/// What becomes of futex word `word` when task `pid` exits: nothing unless the task owns
/// it; else the word keeps only its waiters bit and gains the owner-died bit, and one
/// waiter is to be woken when it had waiters.
pub open spec fn spec_release_word(word: u32, pid: u32) -> Option<(u32, bool)> {
    if word & FUTEX_TID_MASK != pid {
        None
    } else {
        Some(((word & FUTEX_WAITERS) | FUTEX_OWNER_DIED, word & FUTEX_WAITERS != 0))
    }
}

/// The new futex word, and whether to wake a waiter; see `spec_release_word`.
pub fn release_word(word: u32, pid: u32) -> (r: Option<(u32, bool)>)
    ensures
        r == spec_release_word(word, pid),
{
    if word & FUTEX_TID_MASK != pid {
        None
    } else {
        Some(((word & FUTEX_WAITERS) | FUTEX_OWNER_DIED, word & FUTEX_WAITERS != 0))
    }
}

/// A walk along a robust list: the head's address, the futex offset and pending entry the
/// head holds, the entry reached and the number of entries passed.
#[derive(Debug, Clone, Copy, PartialEq, Eq, Structural)]
pub struct RobustListWalk {
    pub head: u64,
    pub futex_offset: i64,
    pub list_op_pending: u64,
    pub entry: u64,
    pub steps: usize,
}

impl RobustListWalk {
    /// The walk of the list whose head at `head` holds `list_next`, `futex_offset` and
    /// `list_op_pending`, at its first entry.
    pub fn new(head: u64, list_next: u64, futex_offset: i64, list_op_pending: u64) -> (r: Self)
        ensures
            r == (RobustListWalk { head, futex_offset, list_op_pending, entry: list_next, steps: 0 }),
    {
        RobustListWalk { head, futex_offset, list_op_pending, entry: list_next, steps: 0 }
    }

    /// Whether the walk goes on: fewer than `ROBUST_LIST_LIMIT` entries passed and an entry
    /// that is neither null nor the head.
    pub open spec fn goes_on(self) -> bool {
        self.steps < ROBUST_LIST_LIMIT && self.entry != 0 && self.entry != self.head
    }

    /// The entry whose next pointer is to be read now, if the walk goes on.
    pub fn current(&self) -> (r: Option<u64>)
        ensures
            r == (if self.goes_on() {
                Some(self.entry)
            } else {
                None
            }),
    {
        if self.steps < ROBUST_LIST_LIMIT && self.entry != 0 && self.entry != self.head {
            Some(self.entry)
        } else {
            None
        }
    }

    /// The current entry's next pointer reads `next`: the walk moves there, and the futex
    /// word of the entry it leaves is handed back for release, if it has an address.
    pub fn advance(&mut self, next: u64) -> (r: Option<u64>)
        requires
            old(self).goes_on(),
        ensures
            r == spec_futex_word_address(old(self).futex_offset, old(self).entry),
            *final(self) == (RobustListWalk { entry: next, steps: (old(self).steps + 1) as usize, ..*old(self) }),
    {
        let word = futex_word_address(self.futex_offset, self.entry);
        self.entry = next;
        self.steps = self.steps + 1;
        word
    }

    /// The futex word of the entry whose operation was pending, released after the walk:
    /// none when there is no such entry or it is the head.
    pub fn pending_word(&self) -> (r: Option<u64>)
        ensures
            r == (if self.list_op_pending != 0 && self.list_op_pending != self.head {
                spec_futex_word_address(self.futex_offset, self.list_op_pending)
            } else {
                None
            }),
    {
        if self.list_op_pending != 0 && self.list_op_pending != self.head {
            futex_word_address(self.futex_offset, self.list_op_pending)
        } else {
            None
        }
    }
}

} // verus!
