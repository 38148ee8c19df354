//! Unix98 pseudo-terminals: the state that a `/dev/ptmx` master and its `/dev/pts/N`
//! slave share, the flow control and output translation between them, and the table of
//! live PTY numbers that `/dev/pts` lists.
use vstd::prelude::*;
use vstd::string::StringSliceAdditionalSpecFns;

use crate::fs::error::FsError;
use crate::fs::poll::{POLL_ERROR, POLL_HUP, POLL_RDHUP, POLL_READ, POLL_WRITE};
use crate::procfs::{parse_u32, spec_parse_u32};
use crate::text::{bytes_equal, decimal, push_decimal};
use crate::wire::push_bytes;

verus! {

/// `ioctl` that suspends or restarts output or input.
pub const TCXONC: u64 = 0x540a;
/// `ioctl` that sends a break.
pub const TCSBRK: u64 = 0x5409;
/// `ioctl` that sends a break of a given length.
pub const TCSBRKP: u64 = 0x5425;
/// Output processing is on.
pub const OPOST: u32 = 0o000001;
/// Newline is sent as carriage return and newline.
pub const ONLCR: u32 = 0o000004;
/// Start/stop output control is on.
pub const IXON: u32 = 0o002000;
/// Index of the START character in `c_cc`.
pub const VSTART: usize = 8;
/// Index of the STOP character in `c_cc`.
pub const VSTOP: usize = 9;
/// `TCXONC` action: suspend output.
pub const TCOOFF: i32 = 0;
/// `TCXONC` action: restart output.
pub const TCOON: i32 = 1;
/// `TCXONC` action: send a STOP character.
pub const TCIOFF: i32 = 2;
/// `TCXONC` action: send a START character.
pub const TCION: i32 = 3;
/// Major device number of `/dev/ptmx`.
pub const PTMX_MAJOR: u32 = 5;
/// Minor device number of `/dev/ptmx`.
pub const PTMX_MINOR: u32 = 2;
/// Major device number of the `/dev/pts/N` slaves.
pub const UNIX98_PTY_SLAVE_MAJOR: u32 = 136;
/// `statfs` magic of devpts.
pub const DEVPTS_SUPER_MAGIC: u64 = 0x1cd1;
/// Block size devpts reports.
pub const DEVPTS_BLOCK_SIZE: u64 = 4096;
/// Longest name devpts reports.
pub const DEVPTS_NAME_LEN: u64 = 255;

/// What the PTY reads of the slave terminal's settings.
#[derive(Debug, Clone, Copy)]
pub struct PtyTermios {
    pub c_iflag: u32,
    pub c_oflag: u32,
    pub c_cc: [u8; 19],
}

/// `bytes` with every newline preceded by a carriage return.
pub open spec fn onlcr(bytes: Seq<u8>) -> Seq<u8>
    decreases bytes.len(),
{
    if bytes.len() == 0 {
        Seq::empty()
    } else {
        onlcr(bytes.drop_last()) + if bytes.last() == 10 {
            seq![13u8, 10u8]
        } else {
            seq![bytes.last()]
        }
    }
}

/// What a slave write puts in the master's queue: the bytes as they are, or with `ONLCR`
/// applied when both `OPOST` and `ONLCR` are set.
pub open spec fn spec_translate_slave_output(c_oflag: u32, bytes: Seq<u8>) -> Seq<u8> {
    if bytes.len() == 0 || c_oflag & OPOST == 0 || c_oflag & ONLCR == 0 {
        bytes
    } else {
        onlcr(bytes)
    }
}

/// Translates what the slave writes into what the master reads.
pub fn translate_slave_output(termios: &PtyTermios, bytes: &[u8]) -> (r: Vec<u8>)
    ensures
        r@ == spec_translate_slave_output(termios.c_oflag, bytes@),
{
    let mut translated: Vec<u8> = Vec::new();
    if bytes.len() == 0 || termios.c_oflag & OPOST == 0 || termios.c_oflag & ONLCR == 0 {
        let mut i: usize = 0;
        while i < bytes.len()
            invariant
                i <= bytes.len(),
                translated@ == bytes@.take(i as int),
            decreases bytes.len() - i,
        {
            translated.push(bytes[i]);
            assert(bytes@.take(i + 1) =~= bytes@.take(i as int).push(bytes@[i as int]));
            i += 1;
        }
        assert(bytes@.take(bytes.len() as int) =~= bytes@);
        return translated;
    }
    let mut i: usize = 0;
    while i < bytes.len()
        invariant
            i <= bytes.len(),
            translated@ == onlcr(bytes@.take(i as int)),
        decreases bytes.len() - i,
    {
        let byte = bytes[i];
        assert(bytes@.take(i + 1).drop_last() =~= bytes@.take(i as int));
        assert(bytes@.take(i + 1).last() == byte);
        if byte == 10 {
            translated.push(13);
            translated.push(10);
            assert(translated@ =~= onlcr(bytes@.take(i as int)) + seq![13u8, 10u8]);
        } else {
            translated.push(byte);
            assert(translated@ =~= onlcr(bytes@.take(i as int)) + seq![byte]);
        }
        i += 1;
    }
    assert(bytes@.take(bytes.len() as int) =~= bytes@);
    translated
}

/// The next value of a version counter, wrapping at the top.
pub open spec fn next_version(version: u64) -> u64 {
    if version == u64::MAX {
        0
    } else {
        (version + 1) as u64
    }
}

/// What the master and slave ends of one PTY share.
pub struct PtyShared {
    /// The PTY number: the slave is `/dev/pts/<id>`.
    pub id: u32,
    /// Whether opening the slave is refused (`TIOCSPTLCK`).
    pub locked: bool,
    /// Whether the master is still open.
    pub master_alive: bool,
    /// How many times the slave is open.
    pub slave_open_count: u32,
    /// Whether the master's output is suspended (`TCOOFF` on the master).
    pub master_output_stopped: bool,
    /// Whether the slave's output is suspended (`TCOOFF` on the slave).
    pub slave_output_stopped: bool,
    /// What the slave wrote and the master has not read yet, oldest first.
    pub master_buffer: Vec<u8>,
    /// Bumped whenever the master's waiters are woken.
    pub master_version: u64,
}

/// What a flow-control request asks the caller to do besides what it changed: the events
/// to wake the master's waiters and the slave terminal's waiters with (0 for none), and a
/// byte to feed to the slave terminal as input.
#[derive(Debug, Clone, Copy, PartialEq, Eq, Structural)]
pub struct PtyFlowControl {
    pub master_events: u32,
    pub slave_events: u32,
    pub slave_input: Option<u8>,
}

/// A write that went through: how many bytes of the caller's buffer it took, and the
/// events to wake the master's waiters with (0 for none).
#[derive(Debug, Clone, Copy, PartialEq, Eq, Structural)]
pub struct PtyWritten {
    pub written: usize,
    pub master_events: u32,
}

/// What closing one end leaves to do: the events to wake the master's waiters with (0 for
/// none), and whether the PTY is now unused and leaves `/dev/pts`.
#[derive(Debug, Clone, Copy, PartialEq, Eq, Structural)]
pub struct PtyRelease {
    pub master_events: u32,
    pub remove: bool,
}

impl PtyShared {
    /// Everything but the master queue and its version is as in `other`.
    pub open spec fn same_flags(&self, other: &PtyShared) -> bool {
        &&& self.id == other.id
        &&& self.locked == other.locked
        &&& self.master_alive == other.master_alive
        &&& self.slave_open_count == other.slave_open_count
        &&& self.master_output_stopped == other.master_output_stopped
        &&& self.slave_output_stopped == other.slave_output_stopped
    }

    /// A new PTY: locked, master open, slave never opened, nothing queued.
    pub fn new(id: u32) -> (r: Self)
        ensures
            r.id == id,
            r.locked,
            r.master_alive,
            r.slave_open_count == 0,
            !r.master_output_stopped,
            !r.slave_output_stopped,
            r.master_buffer@ == Seq::<u8>::empty(),
            r.master_version == 1,
    {
        PtyShared {
            id,
            locked: true,
            master_alive: true,
            slave_open_count: 0,
            master_output_stopped: false,
            slave_output_stopped: false,
            master_buffer: Vec::new(),
            master_version: 1,
        }
    }

    /// The PTY number.
    pub fn pty_number(&self) -> (r: u32)
        ensures
            r == self.id,
    {
        self.id
    }

    /// Whether opening the slave is refused.
    pub fn locked(&self) -> (r: bool)
        ensures
            r == self.locked,
    {
        self.locked
    }

    /// Sets whether opening the slave is refused.
    pub fn set_locked(&mut self, locked: bool)
        ensures
            final(self).locked == locked,
            final(self).id == old(self).id,
            final(self).master_alive == old(self).master_alive,
            final(self).slave_open_count == old(self).slave_open_count,
            final(self).master_output_stopped == old(self).master_output_stopped,
            final(self).slave_output_stopped == old(self).slave_output_stopped,
            final(self).master_buffer@ == old(self).master_buffer@,
            final(self).master_version == old(self).master_version,
    {
        self.locked = locked;
    }

    /// Bumps the master's version and hands back the events to wake its waiters with.
    pub fn bump_master_waiters(&mut self, events: u32) -> (r: u32)
        ensures
            r == events,
            final(self).master_version == next_version(old(self).master_version),
            final(self).same_flags(old(self)),
            final(self).master_buffer@ == old(self).master_buffer@,
    {
        self.master_version = self.master_version.wrapping_add(1);
        events
    }

    /// Queues bytes for the master to read; wakes its readers when there were any.
    pub fn enqueue_master_bytes(&mut self, bytes: &[u8]) -> (r: u32)
        ensures
            final(self).same_flags(old(self)),
            final(self).master_buffer@ == old(self).master_buffer@ + bytes@,
            bytes@.len() == 0 ==> r == 0 && final(self).master_version == old(self).master_version,
            bytes@.len() > 0 ==> r == POLL_READ && final(self).master_version == next_version(
                old(self).master_version,
            ),
    {
        if bytes.len() == 0 {
            assert(self.master_buffer@ + bytes@ =~= self.master_buffer@);
            return 0;
        }
        let ghost start = self.master_buffer@;
        let mut i: usize = 0;
        while i < bytes.len()
            invariant
                i <= bytes.len(),
                self.master_buffer@ == start + bytes@.take(i as int),
                self.same_flags(old(self)),
                self.master_version == old(self).master_version,
            decreases bytes.len() - i,
        {
            self.master_buffer.push(bytes[i]);
            assert(start + bytes@.take(i + 1) =~= (start + bytes@.take(i as int)).push(bytes@[i as int]));
            i += 1;
        }
        assert(bytes@.take(bytes.len() as int) =~= bytes@);
        self.bump_master_waiters(POLL_READ)
    }

    /// Takes up to `len` of the oldest queued bytes.
    pub fn dequeue_master_bytes(&mut self, len: usize) -> (r: Vec<u8>)
        ensures
            r@.len() == if len < old(self).master_buffer@.len() {
                len as int
            } else {
                old(self).master_buffer@.len() as int
            },
            r@ == old(self).master_buffer@.take(r@.len() as int),
            final(self).master_buffer@ == old(self).master_buffer@.skip(r@.len() as int),
            final(self).same_flags(old(self)),
            final(self).master_version == old(self).master_version,
    {
        let n = if len < self.master_buffer.len() {
            len
        } else {
            self.master_buffer.len()
        };
        let mut taken: Vec<u8> = Vec::new();
        let mut rest: Vec<u8> = Vec::new();
        let mut i: usize = 0;
        while i < self.master_buffer.len()
            invariant
                n <= self.master_buffer.len(),
                i <= self.master_buffer.len(),
                i <= n ==> taken@ == self.master_buffer@.take(i as int) && rest@ == Seq::<u8>::empty(),
                i > n ==> taken@ == self.master_buffer@.take(n as int) && rest@
                    == self.master_buffer@.subrange(n as int, i as int),
            decreases self.master_buffer.len() - i,
        {
            let byte = self.master_buffer[i];
            if i < n {
                taken.push(byte);
                assert(self.master_buffer@.take(i + 1) =~= self.master_buffer@.take(i as int).push(byte));
            } else {
                rest.push(byte);
                assert(self.master_buffer@.subrange(n as int, i + 1) =~= self.master_buffer@.subrange(
                    n as int,
                    i as int,
                ).push(byte));
            }
            i += 1;
        }
        assert(self.master_buffer@.subrange(n as int, self.master_buffer.len() as int)
            =~= self.master_buffer@.skip(n as int));
        assert(self.master_buffer@.skip(n as int) =~= rest@ || n == self.master_buffer.len());
        if n == self.master_buffer.len() {
            assert(self.master_buffer@.skip(n as int) =~= Seq::<u8>::empty());
            assert(self.master_buffer@.take(n as int) =~= self.master_buffer@);
        }
        self.master_buffer = rest;
        taken
    }

    /// Whether the master has bytes to read.
    pub fn master_readable(&self) -> (r: bool)
        ensures
            r == (self.master_buffer@.len() > 0),
    {
        self.master_buffer.len() > 0
    }

    /// Whether the slave is open at least once.
    pub fn slave_connected(&self) -> (r: bool)
        ensures
            r == (self.slave_open_count != 0),
    {
        self.slave_open_count != 0
    }

    /// Suspends or restarts the master's output; wakes its writers when that changed.
    pub fn set_master_output_stopped(&mut self, stopped: bool) -> (r: u32)
        ensures
            final(self).master_output_stopped == stopped,
            final(self).id == old(self).id,
            final(self).locked == old(self).locked,
            final(self).master_alive == old(self).master_alive,
            final(self).slave_open_count == old(self).slave_open_count,
            final(self).slave_output_stopped == old(self).slave_output_stopped,
            final(self).master_buffer@ == old(self).master_buffer@,
            old(self).master_output_stopped != stopped ==> r == POLL_WRITE
                && final(self).master_version == next_version(old(self).master_version),
            old(self).master_output_stopped == stopped ==> r == 0 && final(self).master_version
                == old(self).master_version,
    {
        let previous = self.master_output_stopped;
        self.master_output_stopped = stopped;
        if previous != stopped {
            self.bump_master_waiters(POLL_WRITE)
        } else {
            0
        }
    }

    /// Suspends or restarts the slave's output; tells whether that changed.
    pub fn set_slave_output_stopped(&mut self, stopped: bool) -> (r: bool)
        ensures
            r == (old(self).slave_output_stopped != stopped),
            final(self).slave_output_stopped == stopped,
            final(self).id == old(self).id,
            final(self).locked == old(self).locked,
            final(self).master_alive == old(self).master_alive,
            final(self).slave_open_count == old(self).slave_open_count,
            final(self).master_output_stopped == old(self).master_output_stopped,
            final(self).master_buffer@ == old(self).master_buffer@,
            final(self).master_version == old(self).master_version,
    {
        let previous = self.slave_output_stopped;
        self.slave_output_stopped = stopped;
        previous != stopped
    }

    /// Counts one more opening of the slave; the first one wakes the master's writers.
    pub fn open_slave(&mut self) -> (r: u32)
        ensures
            final(self).slave_open_count == if old(self).slave_open_count == u32::MAX {
                0
            } else {
                (old(self).slave_open_count + 1) as u32
            },
            final(self).id == old(self).id,
            final(self).locked == old(self).locked,
            final(self).master_alive == old(self).master_alive,
            final(self).master_output_stopped == old(self).master_output_stopped,
            final(self).slave_output_stopped == old(self).slave_output_stopped,
            final(self).master_buffer@ == old(self).master_buffer@,
            old(self).slave_open_count == 0 ==> r == (POLL_WRITE | POLL_HUP | POLL_RDHUP)
                && final(self).master_version == next_version(old(self).master_version),
            old(self).slave_open_count != 0 ==> r == 0 && final(self).master_version == old(self).master_version,
    {
        let previous = self.slave_open_count;
        self.slave_open_count = self.slave_open_count.wrapping_add(1);
        if previous == 0 {
            self.bump_master_waiters(POLL_WRITE | POLL_HUP | POLL_RDHUP)
        } else {
            0
        }
    }

    /// Whether neither end is open any more, so the PTY can leave `/dev/pts`.
    pub fn cleanup_if_unused(&self) -> (r: bool)
        ensures
            r == (!self.master_alive && self.slave_open_count == 0),
    {
        !self.master_alive && self.slave_open_count == 0
    }

    /// Counts one closing of the slave; the last one wakes the master with a hang-up and
    /// may leave the PTY unused.
    pub fn close_slave(&mut self) -> (r: PtyRelease)
        ensures
            old(self).slave_open_count == 0 ==> r == (PtyRelease { master_events: 0, remove: false })
                && final(self).slave_open_count == 0 && final(self).master_version == old(self).master_version,
            old(self).slave_open_count > 1 ==> r == (PtyRelease { master_events: 0, remove: false })
                && final(self).slave_open_count == old(self).slave_open_count - 1
                && final(self).master_version == old(self).master_version,
            old(self).slave_open_count == 1 ==> r == (PtyRelease {
                master_events: POLL_WRITE | POLL_ERROR | POLL_HUP | POLL_RDHUP,
                remove: !old(self).master_alive,
            }) && final(self).slave_open_count == 0 && final(self).master_version
                == next_version(old(self).master_version),
            final(self).id == old(self).id,
            final(self).locked == old(self).locked,
            final(self).master_alive == old(self).master_alive,
            final(self).master_output_stopped == old(self).master_output_stopped,
            final(self).slave_output_stopped == old(self).slave_output_stopped,
            final(self).master_buffer@ == old(self).master_buffer@,
    {
        let current = self.slave_open_count;
        if current == 0 {
            return PtyRelease { master_events: 0, remove: false };
        }
        self.slave_open_count = current - 1;
        if current == 1 {
            let events = self.bump_master_waiters(POLL_WRITE | POLL_ERROR | POLL_HUP | POLL_RDHUP);
            PtyRelease { master_events: events, remove: self.cleanup_if_unused() }
        } else {
            PtyRelease { master_events: 0, remove: false }
        }
    }

    /// Marks the master closed; tells whether the PTY is now unused.
    pub fn close_master(&mut self) -> (r: bool)
        ensures
            !final(self).master_alive,
            r == (old(self).master_alive && old(self).slave_open_count == 0),
            final(self).id == old(self).id,
            final(self).locked == old(self).locked,
            final(self).slave_open_count == old(self).slave_open_count,
            final(self).master_output_stopped == old(self).master_output_stopped,
            final(self).slave_output_stopped == old(self).slave_output_stopped,
            final(self).master_buffer@ == old(self).master_buffer@,
            final(self).master_version == old(self).master_version,
    {
        let was_alive = self.master_alive;
        self.master_alive = false;
        was_alive && self.cleanup_if_unused()
    }

    /// Opening the slave: refused while the PTY is locked.
    pub fn open_slave_file(&self) -> (r: Result<(), FsError>)
        ensures
            r == if self.locked {
                Err::<(), FsError>(FsError::Io)
            } else {
                Ok(())
            },
    {
        if self.locked {
            Err(FsError::Io)
        } else {
            Ok(())
        }
    }

    /// A read on the master: up to `len` queued bytes; end of file once the slave is
    /// closed and nothing is queued; `WouldBlock` while the slave is open and nothing is.
    pub fn master_read(&mut self, len: usize) -> (r: Result<Vec<u8>, FsError>)
        ensures
            len == 0 ==> (r matches Ok(bytes) && bytes@.len() == 0 && final(self).master_buffer@
                == old(self).master_buffer@),
            len > 0 && old(self).master_buffer@.len() == 0 && old(self).slave_open_count != 0
                ==> r == Err::<Vec<u8>, FsError>(FsError::WouldBlock),
            len > 0 && old(self).master_buffer@.len() == 0 && old(self).slave_open_count == 0
                ==> (r matches Ok(bytes) && bytes@.len() == 0),
            len > 0 && old(self).master_buffer@.len() > 0 ==> (r matches Ok(bytes) && bytes@
                == old(self).master_buffer@.take(bytes@.len() as int) && bytes@.len() == (if len
                < old(self).master_buffer@.len() {
                len as int
            } else {
                old(self).master_buffer@.len() as int
            }) && final(self).master_buffer@ == old(self).master_buffer@.skip(bytes@.len() as int)),
            old(self).master_buffer@.len() == 0 ==> final(self).master_buffer@ == old(self).master_buffer@,
            final(self).same_flags(old(self)),
            final(self).master_version == old(self).master_version,
    {
        if len == 0 {
            return Ok(Vec::new());
        }
        let read = self.dequeue_master_bytes(len);
        if read.len() == 0 {
            if !self.slave_connected() {
                return Ok(read);
            }
            return Err(FsError::WouldBlock);
        }
        Ok(read)
    }

    /// A write on the master: refused while its output is suspended or the slave is
    /// closed; otherwise the whole buffer goes to the slave terminal as input.
    pub fn master_write(&self, buffer: &[u8]) -> (r: Result<usize, FsError>)
        ensures
            r == if buffer@.len() == 0 {
                Ok::<usize, FsError>(0)
            } else if self.master_output_stopped {
                Err(FsError::WouldBlock)
            } else if self.slave_open_count == 0 {
                Err(FsError::Io)
            } else {
                Ok(buffer@.len() as usize)
            },
    {
        if buffer.len() == 0 {
            return Ok(0);
        }
        if self.master_output_stopped {
            return Err(FsError::WouldBlock);
        }
        if !self.slave_connected() {
            return Err(FsError::Io);
        }
        Ok(buffer.len())
    }

    /// Readiness of the master among `events`, with the hang-up bits once the slave is
    /// closed.
    pub fn master_poll(&self, events: u32) -> (r: u32)
        ensures
            r == (if events & POLL_READ != 0 && self.master_buffer@.len() > 0 {
                POLL_READ
            } else {
                0
            }) | (if events & POLL_WRITE != 0 && self.slave_open_count != 0
                && !self.master_output_stopped {
                POLL_WRITE
            } else {
                0
            }) | (if self.slave_open_count == 0 {
                POLL_ERROR | POLL_HUP | POLL_RDHUP
            } else {
                0
            }),
    {
        let read: u32 = if events & POLL_READ != 0 && self.master_readable() {
            POLL_READ
        } else {
            0
        };
        let write: u32 = if events & POLL_WRITE != 0 && self.slave_connected()
            && !self.master_output_stopped {
            POLL_WRITE
        } else {
            0
        };
        let hangup: u32 = if !self.slave_connected() {
            POLL_ERROR | POLL_HUP | POLL_RDHUP
        } else {
            0
        };
        read | write | hangup
    }

    /// Closing the master: it is marked closed; both ends' waiters are woken with the
    /// hang-up bits.
    pub fn master_release(&mut self) -> (r: PtyRelease)
        ensures
            r == (PtyRelease {
                master_events: POLL_ERROR | POLL_HUP | POLL_RDHUP,
                remove: old(self).master_alive && old(self).slave_open_count == 0,
            }),
            !final(self).master_alive,
            final(self).id == old(self).id,
            final(self).locked == old(self).locked,
            final(self).slave_open_count == old(self).slave_open_count,
            final(self).master_output_stopped == old(self).master_output_stopped,
            final(self).slave_output_stopped == old(self).slave_output_stopped,
            final(self).master_buffer@ == old(self).master_buffer@,
            final(self).master_version == old(self).master_version,
    {
        let remove = self.close_master();
        PtyRelease { master_events: POLL_ERROR | POLL_HUP | POLL_RDHUP, remove }
    }

    /// `TCXONC` on the master: suspends or restarts the master's output, or sends the
    /// STOP or START character to the slave terminal when it is open and `IXON` is set.
    pub fn master_tcxonc(&mut self, action: i32, termios: &PtyTermios) -> (r: Result<
        PtyFlowControl,
        FsError,
    >)
        ensures
            action == TCOOFF || action == TCOON ==> final(self).master_output_stopped == (action
                == TCOOFF) && r == Ok::<PtyFlowControl, FsError>(
                PtyFlowControl {
                    master_events: if old(self).master_output_stopped != (action == TCOOFF) {
                        POLL_WRITE
                    } else {
                        0
                    },
                    slave_events: 0,
                    slave_input: None,
                },
            ) && final(self).master_version == if old(self).master_output_stopped != (action
                == TCOOFF) {
                next_version(old(self).master_version)
            } else {
                old(self).master_version
            },
            action == TCIOFF || action == TCION ==> final(self).master_output_stopped == old(self).master_output_stopped && final(self).master_version == old(self).master_version
                && r == Ok::<PtyFlowControl, FsError>(
                PtyFlowControl {
                    master_events: 0,
                    slave_events: 0,
                    slave_input: if old(self).slave_open_count != 0 && termios.c_iflag & IXON
                        != 0 {
                        Some(
                            termios.c_cc@[if action == TCIOFF {
                                VSTOP as int
                            } else {
                                VSTART as int
                            }],
                        )
                    } else {
                        None
                    },
                },
            ),
            action != TCOOFF && action != TCOON && action != TCIOFF && action != TCION ==> r
                == Err::<PtyFlowControl, FsError>(FsError::InvalidInput) && final(self).master_output_stopped == old(self).master_output_stopped && final(self).master_version
                == old(self).master_version,
            final(self).id == old(self).id,
            final(self).locked == old(self).locked,
            final(self).master_alive == old(self).master_alive,
            final(self).slave_open_count == old(self).slave_open_count,
            final(self).slave_output_stopped == old(self).slave_output_stopped,
            final(self).master_buffer@ == old(self).master_buffer@,
    {
        if action == TCOOFF || action == TCOON {
            let events = self.set_master_output_stopped(action == TCOOFF);
            Ok(PtyFlowControl { master_events: events, slave_events: 0, slave_input: None })
        } else if action == TCIOFF || action == TCION {
            if !self.slave_connected() || termios.c_iflag & IXON == 0 {
                return Ok(PtyFlowControl { master_events: 0, slave_events: 0, slave_input: None });
            }
            let index = if action == TCIOFF {
                VSTOP
            } else {
                VSTART
            };
            Ok(
                PtyFlowControl {
                    master_events: 0,
                    slave_events: 0,
                    slave_input: Some(termios.c_cc[index]),
                },
            )
        } else {
            Err(FsError::InvalidInput)
        }
    }

    /// `ioctl` on the master: `TCXONC` as `master_tcxonc` with the argument's low 32 bits,
    /// the break requests accepted and ignored, anything else unsupported.
    pub fn master_ioctl(&mut self, command: u64, argument: u64, termios: &PtyTermios) -> (r: Result<
        PtyFlowControl,
        FsError,
    >)
        ensures
            command != TCXONC ==> final(self).master_output_stopped == old(self).master_output_stopped && final(self).master_version == old(self).master_version,
            command != TCXONC && (command == TCSBRK || command == TCSBRKP) ==> r == Ok::<
                PtyFlowControl,
                FsError,
            >(PtyFlowControl { master_events: 0, slave_events: 0, slave_input: None }),
            command != TCXONC && command != TCSBRK && command != TCSBRKP ==> r == Err::<
                PtyFlowControl,
                FsError,
            >(FsError::Unsupported),
            command == TCXONC && !((argument as i32) == TCOOFF || (argument as i32) == TCOON
                || (argument as i32) == TCIOFF || (argument as i32) == TCION) ==> r == Err::<
                PtyFlowControl,
                FsError,
            >(FsError::InvalidInput),
            command == TCXONC && ((argument as i32) == TCIOFF || (argument as i32) == TCION)
                ==> r == Ok::<PtyFlowControl, FsError>(
                PtyFlowControl {
                    master_events: 0,
                    slave_events: 0,
                    slave_input: if old(self).slave_open_count != 0 && termios.c_iflag & IXON
                        != 0 {
                        Some(
                            termios.c_cc@[if (argument as i32) == TCIOFF {
                                VSTOP as int
                            } else {
                                VSTART as int
                            }],
                        )
                    } else {
                        None
                    },
                },
            ),
            command == TCXONC && ((argument as i32) == TCOOFF || (argument as i32) == TCOON)
                ==> final(self).master_output_stopped == ((argument as i32) == TCOOFF),
            final(self).id == old(self).id,
            final(self).locked == old(self).locked,
            final(self).master_alive == old(self).master_alive,
            final(self).slave_open_count == old(self).slave_open_count,
            final(self).slave_output_stopped == old(self).slave_output_stopped,
            final(self).master_buffer@ == old(self).master_buffer@,
    {
        if command == TCXONC {
            self.master_tcxonc(argument as i32, termios)
        } else if command == TCSBRK || command == TCSBRKP {
            Ok(PtyFlowControl { master_events: 0, slave_events: 0, slave_input: None })
        } else {
            Err(FsError::Unsupported)
        }
    }

    /// A write on the slave: refused once the master is closed or while the slave's
    /// output is suspended; otherwise the translated bytes are queued for the master and
    /// the whole buffer counts as written.
    pub fn slave_write(&mut self, buffer: &[u8], termios: &PtyTermios) -> (r: Result<
        PtyWritten,
        FsError,
    >)
        ensures
            buffer@.len() == 0 ==> r == Ok::<PtyWritten, FsError>(
                PtyWritten { written: 0, master_events: 0 },
            ) && final(self).master_buffer@ == old(self).master_buffer@ && final(self).master_version == old(self).master_version,
            buffer@.len() > 0 && !old(self).master_alive ==> r == Err::<PtyWritten, FsError>(
                FsError::Io,
            ) && final(self).master_buffer@ == old(self).master_buffer@ && final(self).master_version == old(self).master_version,
            buffer@.len() > 0 && old(self).master_alive && old(self).slave_output_stopped ==> r
                == Err::<PtyWritten, FsError>(FsError::WouldBlock) && final(self).master_buffer@
                == old(self).master_buffer@ && final(self).master_version == old(self).master_version,
            buffer@.len() > 0 && old(self).master_alive && !old(self).slave_output_stopped ==> r
                == Ok::<PtyWritten, FsError>(
                PtyWritten { written: buffer@.len() as usize, master_events: POLL_READ },
            ) && final(self).master_buffer@ == old(self).master_buffer@
                + spec_translate_slave_output(termios.c_oflag, buffer@) && final(self).master_version == next_version(old(self).master_version),
            final(self).same_flags(old(self)),
    {
        if buffer.len() == 0 {
            return Ok(PtyWritten { written: 0, master_events: 0 });
        }
        if !self.master_alive {
            return Err(FsError::Io);
        }
        if self.slave_output_stopped {
            return Err(FsError::WouldBlock);
        }
        let translated = translate_slave_output(termios, buffer);
        let events = self.enqueue_master_bytes(translated.as_slice());
        Ok(PtyWritten { written: buffer.len(), master_events: events })
    }

    /// A read on the slave, given what the slave terminal's own read gave: once the master
    /// is closed, `WouldBlock` becomes end of file.
    pub fn slave_read(&self, tty_result: Result<usize, FsError>) -> (r: Result<usize, FsError>)
        ensures
            r == if tty_result == Err::<usize, FsError>(FsError::WouldBlock) && !self.master_alive {
                Ok::<usize, FsError>(0)
            } else {
                tty_result
            },
    {
        match tty_result {
            Err(FsError::WouldBlock) if !self.master_alive => Ok(0),
            other => other,
        }
    }

    /// Whether the slave terminal's backend can take output among `events`.
    pub fn backend_poll_ready(&self, events: u32) -> (r: u32)
        ensures
            r == if events & POLL_WRITE != 0 && self.master_alive && !self.slave_output_stopped {
                POLL_WRITE
            } else {
                0
            },
    {
        if events & POLL_WRITE != 0 && self.master_alive && !self.slave_output_stopped {
            POLL_WRITE
        } else {
            0
        }
    }

    /// Readiness of the slave among `events`, given what the slave terminal reports, with
    /// the hang-up bits once the master is closed.
    pub fn slave_poll(&self, events: u32, tty_ready: u32) -> (r: u32)
        ensures
            r == (if events & POLL_READ != 0 && tty_ready & POLL_READ != 0 {
                POLL_READ
            } else {
                0
            }) | (if events & POLL_WRITE != 0 && self.master_alive && !self.slave_output_stopped
                && tty_ready & POLL_WRITE != 0 {
                POLL_WRITE
            } else {
                0
            }) | (if !self.master_alive {
                POLL_ERROR | POLL_HUP | POLL_RDHUP
            } else {
                0
            }),
    {
        let read: u32 = if events & POLL_READ != 0 && tty_ready & POLL_READ != 0 {
            POLL_READ
        } else {
            0
        };
        let write: u32 = if events & POLL_WRITE != 0 && self.master_alive
            && !self.slave_output_stopped && tty_ready & POLL_WRITE != 0 {
            POLL_WRITE
        } else {
            0
        };
        let hangup: u32 = if !self.master_alive {
            POLL_ERROR | POLL_HUP | POLL_RDHUP
        } else {
            0
        };
        read | write | hangup
    }

    /// `TCXONC` on the slave: suspends or restarts the slave's output (waking the slave
    /// terminal's writers when that changed), or queues the STOP or START character for
    /// the master when it is open and `IXON` is set.
    pub fn slave_tcxonc(&mut self, action: i32, termios: &PtyTermios) -> (r: Result<
        PtyFlowControl,
        FsError,
    >)
        ensures
            action == TCOOFF || action == TCOON ==> final(self).slave_output_stopped == (action
                == TCOOFF) && final(self).master_buffer@ == old(self).master_buffer@ && final(self).master_version == old(self).master_version && r == Ok::<PtyFlowControl, FsError>(
                PtyFlowControl {
                    master_events: 0,
                    slave_events: if old(self).slave_output_stopped != (action == TCOOFF) {
                        POLL_WRITE
                    } else {
                        0
                    },
                    slave_input: None,
                },
            ),
            (action == TCIOFF || action == TCION) && old(self).master_alive && termios.c_iflag
                & IXON != 0 ==> final(self).slave_output_stopped == old(self).slave_output_stopped
                && final(self).master_buffer@ == old(self).master_buffer@.push(
                termios.c_cc@[if action == TCIOFF {
                    VSTOP as int
                } else {
                    VSTART as int
                }],
            ) && final(self).master_version == next_version(old(self).master_version) && r
                == Ok::<PtyFlowControl, FsError>(
                PtyFlowControl { master_events: POLL_READ, slave_events: 0, slave_input: None },
            ),
            (action == TCIOFF || action == TCION) && !(old(self).master_alive && termios.c_iflag
                & IXON != 0) ==> final(self).slave_output_stopped == old(self).slave_output_stopped && final(self).master_buffer@ == old(self).master_buffer@
                && final(self).master_version == old(self).master_version && r == Ok::<
                PtyFlowControl,
                FsError,
            >(PtyFlowControl { master_events: 0, slave_events: 0, slave_input: None }),
            action != TCOOFF && action != TCOON && action != TCIOFF && action != TCION ==> r
                == Err::<PtyFlowControl, FsError>(FsError::InvalidInput) && final(self).slave_output_stopped == old(self).slave_output_stopped && final(self).master_buffer@
                == old(self).master_buffer@ && final(self).master_version == old(self).master_version,
            final(self).id == old(self).id,
            final(self).locked == old(self).locked,
            final(self).master_alive == old(self).master_alive,
            final(self).slave_open_count == old(self).slave_open_count,
            final(self).master_output_stopped == old(self).master_output_stopped,
    {
        if action == TCOOFF || action == TCOON {
            let changed = self.set_slave_output_stopped(action == TCOOFF);
            let slave_events: u32 = if changed {
                POLL_WRITE
            } else {
                0
            };
            Ok(PtyFlowControl { master_events: 0, slave_events, slave_input: None })
        } else if action == TCIOFF || action == TCION {
            if !self.master_alive || termios.c_iflag & IXON == 0 {
                return Ok(PtyFlowControl { master_events: 0, slave_events: 0, slave_input: None });
            }
            let index = if action == TCIOFF {
                VSTOP
            } else {
                VSTART
            };
            let byte = [termios.c_cc[index]];
            assert(byte@ =~= seq![termios.c_cc@[index as int]]);
            let events = self.enqueue_master_bytes(&byte);
            Ok(PtyFlowControl { master_events: events, slave_events: 0, slave_input: None })
        } else {
            Err(FsError::InvalidInput)
        }
    }

    /// `ioctl` on the slave: `TCXONC` as `slave_tcxonc` with the argument's low 32 bits,
    /// the break requests accepted and ignored; `None` hands anything else to the slave
    /// terminal itself.
    pub fn slave_ioctl(&mut self, command: u64, argument: u64, termios: &PtyTermios) -> (r: Option<
        Result<PtyFlowControl, FsError>,
    >)
        ensures
            command == TCXONC ==> r is Some,
            command != TCXONC && (command == TCSBRK || command == TCSBRKP) ==> r == Some(
                Ok::<PtyFlowControl, FsError>(
                    PtyFlowControl { master_events: 0, slave_events: 0, slave_input: None },
                ),
            ),
            command != TCXONC && command != TCSBRK && command != TCSBRKP ==> r is None,
            command != TCXONC ==> final(self).slave_output_stopped == old(self).slave_output_stopped && final(self).master_buffer@ == old(self).master_buffer@
                && final(self).master_version == old(self).master_version,
            command == TCXONC && !((argument as i32) == TCOOFF || (argument as i32) == TCOON
                || (argument as i32) == TCIOFF || (argument as i32) == TCION) ==> r == Some(
                Err::<PtyFlowControl, FsError>(FsError::InvalidInput),
            ),
            command == TCXONC && ((argument as i32) == TCOOFF || (argument as i32) == TCOON)
                ==> final(self).slave_output_stopped == ((argument as i32) == TCOOFF),
            final(self).id == old(self).id,
            final(self).locked == old(self).locked,
            final(self).master_alive == old(self).master_alive,
            final(self).slave_open_count == old(self).slave_open_count,
            final(self).master_output_stopped == old(self).master_output_stopped,
    {
        if command == TCXONC {
            Some(self.slave_tcxonc(argument as i32, termios))
        } else if command == TCSBRK || command == TCSBRKP {
            Some(Ok(PtyFlowControl { master_events: 0, slave_events: 0, slave_input: None }))
        } else {
            None
        }
    }
}

/// What a name looks up in the root of devpts.
#[derive(Debug, Clone, Copy, PartialEq, Eq, Structural)]
pub enum DevPtsLookup {
    Ptmx,
    Slave(u32),
    Missing,
}

/// The live PTY numbers and the next number to hand out.
pub struct PtyManager {
    next_id: u32,
    entries: Vec<u32>,
}

impl PtyManager {
    /// The live PTY numbers, ascending.
    pub closed spec fn ids(&self) -> Seq<u32> {
        self.entries@
    }

    /// The next number `allocate_master` hands out.
    pub closed spec fn next_id(&self) -> u32 {
        self.next_id
    }

    /// The numbers ascend strictly, and all lie below the next number to hand out.
    pub open spec fn wf(&self) -> bool {
        &&& forall|i: int, j: int| 0 <= i < j < self.ids().len() ==> self.ids()[i] < self.ids()[j]
        &&& forall|i: int| 0 <= i < self.ids().len() ==> #[trigger] self.ids()[i] < self.next_id()
    }

    /// No PTYs; numbering starts at 0.
    pub fn new() -> (r: Self)
        ensures
            r.wf(),
            r.ids() == Seq::<u32>::empty(),
            r.next_id() == 0,
    {
        PtyManager { next_id: 0, entries: Vec::new() }
    }

    /// Hands out the next PTY number.
    pub fn next_pty_id(&mut self) -> (r: u32)
        ensures
            r == old(self).next_id(),
            final(self).next_id() == if old(self).next_id() == u32::MAX {
                0
            } else {
                (old(self).next_id() + 1) as u32
            },
            final(self).ids() == old(self).ids(),
    {
        let id = self.next_id;
        self.next_id = self.next_id.wrapping_add(1);
        id
    }

    /// Opens `/dev/ptmx`: a new PTY under the next number, listed in `/dev/pts`. The
    /// number is fresh while numbering has not wrapped.
    pub fn allocate_master(&mut self) -> (r: PtyShared)
        requires
            old(self).wf(),
            old(self).next_id() < u32::MAX,
        ensures
            final(self).wf(),
            r.id == old(self).next_id(),
            final(self).next_id() == old(self).next_id() + 1,
            !old(self).ids().contains(r.id),
            final(self).ids() == old(self).ids().push(r.id),
            r.locked,
            r.master_alive,
            r.slave_open_count == 0,
            !r.master_output_stopped,
            !r.slave_output_stopped,
            r.master_buffer@ == Seq::<u8>::empty(),
            r.master_version == 1,
    {
        let id = self.next_pty_id();
        self.entries.push(id);
        PtyShared::new(id)
    }

    /// Whether `/dev/pts/<id>` exists.
    pub fn lookup_slave(&self, id: u32) -> (r: bool)
        ensures
            r == self.ids().contains(id),
    {
        let mut i: usize = 0;
        while i < self.entries.len()
            invariant
                i <= self.entries.len(),
                forall|j: int| 0 <= j < i ==> self.entries@[j] != id,
            decreases self.entries.len() - i,
        {
            if self.entries[i] == id {
                assert(self.ids()[i as int] == id);
                return true;
            }
            i += 1;
        }
        false
    }

    /// Takes `/dev/pts/<id>` away.
    pub fn remove_pty(&mut self, id: u32)
        requires
            old(self).wf(),
        ensures
            final(self).wf(),
            final(self).next_id() == old(self).next_id(),
            forall|x: u32| #[trigger] final(self).ids().contains(x) == (old(self).ids().contains(x) && x
                != id),
    {
        let mut kept: Vec<u32> = Vec::new();
        let mut i: usize = 0;
        while i < self.entries.len()
            invariant
                i <= self.entries.len(),
                self.wf(),
                forall|a: int, b: int| 0 <= a < b < kept@.len() ==> kept@[a] < kept@[b],
                forall|k: int|
                    0 <= k < kept@.len() ==> #[trigger] kept@[k] != id && exists|m: int|
                        0 <= m < i && kept@[k] == self.entries@[m],
                forall|m: int|
                    0 <= m < i && #[trigger] self.entries@[m] != id ==> kept@.contains(
                        self.entries@[m],
                    ),
            decreases self.entries.len() - i,
        {
            let e = self.entries[i];
            if e != id {
                proof {
                    assert forall|k: int| 0 <= k < kept@.len() implies kept@[k] < e by {
                        let m = choose|m: int| 0 <= m < i && kept@[k] == self.entries@[m];
                        assert(self.ids()[m] < self.ids()[i as int]);
                    }
                }
                let ghost before = kept@;
                kept.push(e);
                proof {
                    assert forall|k: int|
                        0 <= k < kept@.len() implies #[trigger] kept@[k] != id && exists|m: int|
                            0 <= m < i + 1 && kept@[k] == self.entries@[m] by {
                        if k < kept@.len() - 1 {
                            let m = choose|m: int| 0 <= m < i && kept@[k] == self.entries@[m];
                            assert(kept@[k] == self.entries@[m]);
                        } else {
                            assert(kept@[k] == self.entries@[i as int]);
                        }
                    }
                    assert forall|m: int|
                        0 <= m < i + 1 && #[trigger] self.entries@[m] != id implies kept@.contains(
                            self.entries@[m],
                        ) by {
                        if m == i {
                            assert(kept@[kept@.len() - 1] == e);
                        } else {
                            assert(before.contains(self.entries@[m]));
                            let k = choose|k: int| 0 <= k < before.len() && before[k] == self.entries@[m];
                            assert(kept@[k] == self.entries@[m]);
                        }
                    }
                }
            }
            i += 1;
        }
        proof {
            let old_ids = self.entries@;
            assert forall|k: int| 0 <= k < kept@.len() implies #[trigger] kept@[k] < self.next_id by {
                let m = choose|m: int| 0 <= m < self.entries@.len() && kept@[k] == self.entries@[m];
                assert(self.ids()[m] < self.next_id());
            }
            assert forall|x: u32| #[trigger] kept@.contains(x) == (old_ids.contains(x) && x != id) by {
                if kept@.contains(x) {
                    let k = choose|k: int| 0 <= k < kept@.len() && kept@[k] == x;
                    assert(kept@[k] != id);
                    let m = choose|m: int| 0 <= m < self.entries@.len() && kept@[k] == self.entries@[m];
                    assert(old_ids[m] == x);
                }
                if old_ids.contains(x) && x != id {
                    let m = choose|m: int| 0 <= m < old_ids.len() && old_ids[m] == x;
                    assert(self.entries@[m] != id);
                }
            }
        }
        self.entries = kept;
    }

    /// The root of devpts: `ptmx`, then the live PTY numbers in decimal, ascending.
    pub fn entries(&self) -> (r: Vec<Vec<u8>>)
        ensures
            r@.len() == self.ids().len() + 1,
            r@[0]@ == "ptmx".spec_bytes(),
            forall|i: int|
                0 <= i < self.ids().len() ==> (#[trigger] r@[i + 1])@ == decimal(
                    self.ids()[i] as nat,
                ),
    {
        let mut names: Vec<Vec<u8>> = Vec::new();
        let mut ptmx: Vec<u8> = Vec::new();
        push_bytes(&mut ptmx, "ptmx".as_bytes());
        assert(ptmx@ =~= "ptmx".spec_bytes());
        names.push(ptmx);
        let mut i: usize = 0;
        while i < self.entries.len()
            invariant
                i <= self.entries.len(),
                names@.len() == i + 1,
                names@[0]@ == "ptmx".spec_bytes(),
                forall|k: int| 0 <= k < i ==> (#[trigger] names@[k + 1])@ == decimal(
                    self.entries@[k] as nat,
                ),
            decreases self.entries.len() - i,
        {
            let mut name: Vec<u8> = Vec::new();
            push_decimal(&mut name, self.entries[i] as u64);
            assert(name@ =~= decimal(self.entries@[i as int] as nat));
            names.push(name);
            i += 1;
        }
        names
    }

    /// Looks a name up in the root of devpts: `ptmx`, or a live PTY number as Rust parses
    /// a `u32`.
    pub fn lookup(&self, name: &[u8]) -> (r: DevPtsLookup)
        ensures
            name@ == "ptmx".spec_bytes() ==> r == DevPtsLookup::Ptmx,
            name@ != "ptmx".spec_bytes() ==> r == match spec_parse_u32(name@) {
                Some(id) => if self.ids().contains(id) {
                    DevPtsLookup::Slave(id)
                } else {
                    DevPtsLookup::Missing
                },
                None => DevPtsLookup::Missing,
            },
    {
        if bytes_equal(name, "ptmx".as_bytes()) {
            return DevPtsLookup::Ptmx;
        }
        match parse_u32(name) {
            Some(id) => {
                if self.lookup_slave(id) {
                    DevPtsLookup::Slave(id)
                } else {
                    DevPtsLookup::Missing
                }
            },
            None => DevPtsLookup::Missing,
        }
    }
}

/// Translating text without a newline changes nothing.
pub proof fn lemma_onlcr_without_newline(bytes: Seq<u8>)
    requires
        forall|i: int| 0 <= i < bytes.len() ==> bytes[i] != 10,
    ensures
        onlcr(bytes) == bytes,
    decreases bytes.len(),
{
    if bytes.len() > 0 {
        lemma_onlcr_without_newline(bytes.drop_last());
        assert(bytes[bytes.len() - 1] != 10);
        assert(bytes.drop_last() + seq![bytes.last()] =~= bytes);
    }
}

/// In translated text every newline comes right after a carriage return, and the text
/// grows by one byte per newline.
pub proof fn lemma_onlcr_newline_after_return(bytes: Seq<u8>)
    ensures
        forall|i: int| 0 <= i < onlcr(bytes).len() && #[trigger] onlcr(bytes)[i] == 10 ==> i > 0
            && onlcr(bytes)[i - 1] == 13,
        onlcr(bytes).len() == bytes.len() + bytes.filter(|b: u8| b == 10).len(),
    decreases bytes.len(),
{
    if bytes.len() > 0 {
        let init = bytes.drop_last();
        lemma_onlcr_newline_after_return(init);
        let tail = if bytes.last() == 10 {
            seq![13u8, 10u8]
        } else {
            seq![bytes.last()]
        };
        let out = onlcr(bytes);
        assert(out == onlcr(init) + tail);
        assert forall|i: int| 0 <= i < out.len() && #[trigger] out[i] == 10 implies i > 0 && out[i
            - 1] == 13 by {
            if i < onlcr(init).len() {
                assert(out[i] == onlcr(init)[i]);
                assert(onlcr(init)[i] == 10);
                assert(out[i - 1] == onlcr(init)[i - 1]);
            } else if bytes.last() == 10 {
                if i == onlcr(init).len() {
                    assert(out[i] == 13);
                } else {
                    assert(out[i - 1] == tail[0]);
                }
            } else {
                assert(out[i] == bytes.last());
            }
        }
        assert(bytes =~= init.push(bytes.last()));
        init.lemma_filter_len_push(|b: u8| b == 10, bytes.last());
    }
}

} // verus!
