//! The parameters of `clone`, `clone3`, `fork` and `vfork`, and which of them the kernel
//! supports.
use vstd::prelude::*;

use crate::errno::{SysErr, SysResult};
use crate::wire::{le_u64_at, read_u64_at};

verus! {

pub const CLONE_VM: u64 = 0x0000_0100;
pub const CLONE_FS: u64 = 0x0000_0200;
pub const CLONE_FILES: u64 = 0x0000_0400;
pub const CLONE_SIGHAND: u64 = 0x0000_0800;
pub const CLONE_PIDFD: u64 = 0x0000_1000;
pub const CLONE_PTRACE: u64 = 0x0000_2000;
pub const CLONE_VFORK: u64 = 0x0000_4000;
pub const CLONE_PARENT: u64 = 0x0000_8000;
pub const CLONE_THREAD: u64 = 0x0001_0000;
pub const CLONE_NEWNS: u64 = 0x0002_0000;
pub const CLONE_SYSVSEM: u64 = 0x0004_0000;
pub const CLONE_SETTLS: u64 = 0x0008_0000;
pub const CLONE_PARENT_SETTID: u64 = 0x0010_0000;
pub const CLONE_CHILD_CLEARTID: u64 = 0x0020_0000;
pub const CLONE_DETACHED: u64 = 0x0040_0000;
pub const CLONE_UNTRACED: u64 = 0x0080_0000;
pub const CLONE_CHILD_SETTID: u64 = 0x0100_0000;
pub const CLONE_NEWCGROUP: u64 = 0x0200_0000;
pub const CLONE_NEWUTS: u64 = 0x0400_0000;
pub const CLONE_NEWIPC: u64 = 0x0800_0000;
pub const CLONE_NEWUSER: u64 = 0x1000_0000;
pub const CLONE_NEWPID: u64 = 0x2000_0000;
pub const CLONE_NEWNET: u64 = 0x4000_0000;
pub const CLONE_IO: u64 = 0x8000_0000;
pub const CLONE_CLEAR_SIGHAND: u64 = 0x0001_0000_0000;
pub const CLONE_INTO_CGROUP: u64 = 0x0002_0000_0000;

/// The low byte of `clone`'s flags, which holds the exit signal.
pub const CSIGNAL_MASK: u64 = 0xff;

/// Flags that need subsystems the kernel lacks (pidfd, ptrace, namespaces, cgroups, ...).
pub const CLONE_UNSUPPORTED_FLAGS: u64 = 0x0003_FEC2_3000;

/// The unsupported flags are exactly these.
pub proof fn lemma_unsupported_flags()
    ensures
        CLONE_UNSUPPORTED_FLAGS == CLONE_PIDFD | CLONE_PTRACE | CLONE_NEWNS | CLONE_DETACHED
            | CLONE_UNTRACED | CLONE_NEWCGROUP | CLONE_NEWUTS | CLONE_NEWIPC | CLONE_NEWUSER
            | CLONE_NEWPID | CLONE_NEWNET | CLONE_IO | CLONE_CLEAR_SIGHAND | CLONE_INTO_CGROUP,
{
    assert(0x0003_FEC2_3000u64 == 0x1000u64 | 0x2000u64 | 0x0002_0000u64 | 0x0040_0000u64
        | 0x0080_0000u64 | 0x0200_0000u64 | 0x0400_0000u64 | 0x0800_0000u64 | 0x1000_0000u64
        | 0x2000_0000u64 | 0x4000_0000u64 | 0x8000_0000u64 | 0x0001_0000_0000u64
        | 0x0002_0000_0000u64) by (bit_vector);
}

/// What a new task is asked to share with its parent, and where its IDs and TLS go.
#[derive(Debug, Clone, Copy, PartialEq, Eq, Structural)]
pub struct CloneParams {
    pub flags: u64,
    pub exit_signal: u64,
    pub child_stack_pointer: Option<u64>,
    pub parent_tid: Option<u64>,
    pub child_tid: Option<u64>,
    pub tls: Option<u64>,
}

/// `value` when `cond`, else nothing.
pub open spec fn when(cond: bool, value: u64) -> Option<u64> {
    if cond {
        Some(value)
    } else {
        None
    }
}

fn option_when(cond: bool, value: u64) -> (r: Option<u64>)
    ensures
        r == when(cond, value),
{
    if cond {
        Some(value)
    } else {
        None
    }
}

/// The verdict of `CloneParams::validate`, checked in this order.
pub open spec fn clone_verdict(p: CloneParams) -> Result<(), SysErr> {
    let f = p.flags;
    if f & CLONE_UNSUPPORTED_FLAGS != 0 {
        Err(SysErr::Inval)
    } else if f & CLONE_THREAD != 0 && (f & CLONE_SIGHAND == 0 || f & CLONE_VM == 0) {
        Err(SysErr::Inval)
    } else if f & CLONE_SIGHAND != 0 && f & CLONE_VM == 0 {
        Err(SysErr::Inval)
    } else if f & CLONE_VFORK != 0 && f & CLONE_VM == 0 {
        Err(SysErr::Inval)
    } else if f & CLONE_THREAD != 0 && p.exit_signal != 0 {
        Err(SysErr::Inval)
    } else if f & CLONE_PARENT_SETTID != 0 && p.parent_tid is None {
        Err(SysErr::Fault)
    } else if f & (CLONE_CHILD_SETTID | CLONE_CHILD_CLEARTID) != 0 && p.child_tid is None {
        Err(SysErr::Fault)
    } else if f & CLONE_SETTLS != 0 && p.tls is None {
        Err(SysErr::Fault)
    } else if p.exit_signal > CSIGNAL_MASK {
        Err(SysErr::Inval)
    } else {
        Ok(())
    }
}

impl CloneParams {
    /// `fork`: nothing shared, `SIGCHLD` on exit.
    pub fn fork() -> (r: Self)
        ensures
            r == (CloneParams {
                flags: 0,
                exit_signal: 17,
                child_stack_pointer: None,
                parent_tid: None,
                child_tid: None,
                tls: None,
            }),
    {
        CloneParams {
            flags: 0,
            exit_signal: 17,
            child_stack_pointer: None,
            parent_tid: None,
            child_tid: None,
            tls: None,
        }
    }

    /// `vfork`: the address space is shared and the parent waits, `SIGCHLD` on exit.
    pub fn vfork() -> (r: Self)
        ensures
            r == (CloneParams {
                flags: CLONE_VM | CLONE_VFORK,
                exit_signal: 17,
                child_stack_pointer: None,
                parent_tid: None,
                child_tid: None,
                tls: None,
            }),
    {
        CloneParams {
            flags: CLONE_VM | CLONE_VFORK,
            exit_signal: 17,
            child_stack_pointer: None,
            parent_tid: None,
            child_tid: None,
            tls: None,
        }
    }

    /// The parameters of a `clone` call: the low byte of the flags is the exit signal, a zero
    /// stack keeps the parent's, and each address is kept only when its flag asks for it.
    pub fn from_clone(
        flags_and_signal: u64,
        child_stack: u64,
        parent_tid: u64,
        child_tid: u64,
        tls: u64,
    ) -> (r: Self)
        ensures
            r.flags == flags_and_signal & !CSIGNAL_MASK,
            r.exit_signal == flags_and_signal & CSIGNAL_MASK,
            r.child_stack_pointer == when(child_stack != 0, child_stack),
            r.parent_tid == when(r.flags & CLONE_PARENT_SETTID != 0, parent_tid),
            r.child_tid == when(
                r.flags & (CLONE_CHILD_SETTID | CLONE_CHILD_CLEARTID) != 0,
                child_tid,
            ),
            r.tls == when(r.flags & CLONE_SETTLS != 0, tls),
    {
        let flags = flags_and_signal & !CSIGNAL_MASK;
        let exit_signal = flags_and_signal & CSIGNAL_MASK;
        CloneParams {
            flags,
            exit_signal,
            child_stack_pointer: option_when(child_stack != 0, child_stack),
            parent_tid: option_when((flags & CLONE_PARENT_SETTID) != 0, parent_tid),
            child_tid: option_when(
                (flags & (CLONE_CHILD_SETTID | CLONE_CHILD_CLEARTID)) != 0,
                child_tid,
            ),
            tls: option_when((flags & CLONE_SETTLS) != 0, tls),
        }
    }

    /// The parameters of a `clone3` call: the stack pointer is the top of the given stack
    /// (saturating), and the exit signal keeps only its low byte.
    pub fn from_clone3(args: LinuxCloneArgs) -> (r: Self)
        ensures
            r.flags == args.flags,
            r.exit_signal == args.exit_signal & CSIGNAL_MASK,
            r.child_stack_pointer == (if args.stack == 0 {
                None
            } else if args.stack_size == 0 {
                Some(args.stack)
            } else if args.stack + args.stack_size > u64::MAX {
                Some(u64::MAX)
            } else {
                Some((args.stack + args.stack_size) as u64)
            }),
            r.parent_tid == when(args.flags & CLONE_PARENT_SETTID != 0, args.parent_tid),
            r.child_tid == when(
                args.flags & (CLONE_CHILD_SETTID | CLONE_CHILD_CLEARTID) != 0,
                args.child_tid,
            ),
            r.tls == when(args.flags & CLONE_SETTLS != 0, args.tls),
    {
        let child_stack_pointer = if args.stack != 0 {
            let top = if args.stack_size != 0 {
                args.stack.saturating_add(args.stack_size)
            } else {
                args.stack
            };
            Some(top)
        } else {
            None
        };
        CloneParams {
            flags: args.flags,
            exit_signal: args.exit_signal & CSIGNAL_MASK,
            child_stack_pointer,
            parent_tid: option_when((args.flags & CLONE_PARENT_SETTID) != 0, args.parent_tid),
            child_tid: option_when(
                (args.flags & (CLONE_CHILD_SETTID | CLONE_CHILD_CLEARTID)) != 0,
                args.child_tid,
            ),
            tls: option_when((args.flags & CLONE_SETTLS) != 0, args.tls),
        }
    }

    /// Checks the request: unsupported flags, a thread without shared handlers and memory,
    /// shared handlers without shared memory, `vfork` without shared memory, a thread with an
    /// exit signal, or an exit signal above 255 are `Inval`; an ID or TLS flag without its
    /// address is `Fault`.
    pub fn validate(self) -> (r: SysResult<()>)
        ensures
            r == clone_verdict(self),
    {
        proof {
            lemma_unsupported_flags();
        }
        let unsupported_flags = CLONE_PIDFD | CLONE_PTRACE | CLONE_NEWNS | CLONE_DETACHED
            | CLONE_UNTRACED | CLONE_NEWCGROUP | CLONE_NEWUTS | CLONE_NEWIPC | CLONE_NEWUSER
            | CLONE_NEWPID | CLONE_NEWNET | CLONE_IO | CLONE_CLEAR_SIGHAND | CLONE_INTO_CGROUP;
        if (self.flags & unsupported_flags) != 0 {
            return Err(SysErr::Inval);
        }
        if (self.flags & CLONE_THREAD) != 0 && ((self.flags & CLONE_SIGHAND) == 0 || (self.flags
            & CLONE_VM) == 0) {
            return Err(SysErr::Inval);
        }
        if (self.flags & CLONE_SIGHAND) != 0 && (self.flags & CLONE_VM) == 0 {
            return Err(SysErr::Inval);
        }
        if (self.flags & CLONE_VFORK) != 0 && (self.flags & CLONE_VM) == 0 {
            return Err(SysErr::Inval);
        }
        if (self.flags & CLONE_THREAD) != 0 && self.exit_signal != 0 {
            return Err(SysErr::Inval);
        }
        if (self.flags & CLONE_PARENT_SETTID) != 0 && self.parent_tid.is_none() {
            return Err(SysErr::Fault);
        }
        if (self.flags & (CLONE_CHILD_SETTID | CLONE_CHILD_CLEARTID)) != 0
            && self.child_tid.is_none() {
            return Err(SysErr::Fault);
        }
        if (self.flags & CLONE_SETTLS) != 0 && self.tls.is_none() {
            return Err(SysErr::Fault);
        }
        if self.exit_signal > CSIGNAL_MASK {
            return Err(SysErr::Inval);
        }
        Ok(())
    }

    pub fn shares_vm(self) -> (r: bool)
        ensures
            r == (self.flags & CLONE_VM != 0),
    {
        (self.flags & CLONE_VM) != 0
    }

    pub fn is_vfork(self) -> (r: bool)
        ensures
            r == (self.flags & CLONE_VFORK != 0),
    {
        (self.flags & CLONE_VFORK) != 0
    }

    pub fn inherit_parent(self) -> (r: bool)
        ensures
            r == (self.flags & CLONE_PARENT != 0),
    {
        (self.flags & CLONE_PARENT) != 0
    }

    pub fn set_tls(self) -> (r: bool)
        ensures
            r == (self.flags & CLONE_SETTLS != 0),
    {
        (self.flags & CLONE_SETTLS) != 0
    }

    pub fn share_fs(self) -> (r: bool)
        ensures
            r == (self.flags & CLONE_FS != 0),
    {
        (self.flags & CLONE_FS) != 0
    }

    pub fn share_files(self) -> (r: bool)
        ensures
            r == (self.flags & CLONE_FILES != 0),
    {
        (self.flags & CLONE_FILES) != 0
    }

    pub fn share_sighand(self) -> (r: bool)
        ensures
            r == (self.flags & CLONE_SIGHAND != 0),
    {
        (self.flags & CLONE_SIGHAND) != 0
    }

    pub fn thread(self) -> (r: bool)
        ensures
            r == (self.flags & CLONE_THREAD != 0),
    {
        (self.flags & CLONE_THREAD) != 0
    }

    pub fn share_sysvsem(self) -> (r: bool)
        ensures
            r == (self.flags & CLONE_SYSVSEM != 0),
    {
        (self.flags & CLONE_SYSVSEM) != 0
    }

    pub fn set_parent_tid(self) -> (r: bool)
        ensures
            r == (self.flags & CLONE_PARENT_SETTID != 0),
    {
        (self.flags & CLONE_PARENT_SETTID) != 0
    }

    pub fn set_child_tid(self) -> (r: bool)
        ensures
            r == (self.flags & CLONE_CHILD_SETTID != 0),
    {
        (self.flags & CLONE_CHILD_SETTID) != 0
    }

    pub fn clear_child_tid(self) -> (r: bool)
        ensures
            r == (self.flags & CLONE_CHILD_CLEARTID != 0),
    {
        (self.flags & CLONE_CHILD_CLEARTID) != 0
    }
}

/// A thread request that passes validation shares handlers and memory and has no exit
/// signal.
pub proof fn lemma_valid_thread_shares(p: CloneParams)
    requires
        clone_verdict(p) is Ok,
        p.flags & CLONE_THREAD != 0,
    ensures
        p.flags & CLONE_SIGHAND != 0,
        p.flags & CLONE_VM != 0,
        p.exit_signal == 0,
{
}

/// The parameters `from_clone` builds always carry their addresses where their flags ask,
/// so they fail validation only for the flag combinations and the exit signal.
pub proof fn lemma_from_clone_addresses_present(p: CloneParams, f: u64, s: u64, pt: u64, ct: u64, t: u64)
    requires
        p.flags == f & !CSIGNAL_MASK,
        p.exit_signal == f & CSIGNAL_MASK,
        p.child_stack_pointer == when(s != 0, s),
        p.parent_tid == when(p.flags & CLONE_PARENT_SETTID != 0, pt),
        p.child_tid == when(p.flags & (CLONE_CHILD_SETTID | CLONE_CHILD_CLEARTID) != 0, ct),
        p.tls == when(p.flags & CLONE_SETTLS != 0, t),
    ensures
        clone_verdict(p) != Err::<(), SysErr>(SysErr::Fault),
{
    assert(f & 0xffu64 <= 0xffu64) by (bit_vector);
}

/// The `clone_args` record of `clone3`.
#[derive(Debug, Clone, Copy, PartialEq, Eq, Structural)]
pub struct LinuxCloneArgs {
    pub flags: u64,
    pub pidfd: u64,
    pub child_tid: u64,
    pub parent_tid: u64,
    pub exit_signal: u64,
    pub stack: u64,
    pub stack_size: u64,
    pub tls: u64,
    pub set_tid: u64,
    pub set_tid_size: u64,
    pub cgroup: u64,
}

/// Size of the `clone_args` record the kernel understands.
pub const LINUX_CLONE_ARGS_SIZE: usize = 88;

/// The record that the first 88 bytes of `b` hold.
pub open spec fn clone_args_from_bytes(b: Seq<u8>) -> LinuxCloneArgs {
    LinuxCloneArgs {
        flags: le_u64_at(b, 0),
        pidfd: le_u64_at(b, 8),
        child_tid: le_u64_at(b, 16),
        parent_tid: le_u64_at(b, 24),
        exit_signal: le_u64_at(b, 32),
        stack: le_u64_at(b, 40),
        stack_size: le_u64_at(b, 48),
        tls: le_u64_at(b, 56),
        set_tid: le_u64_at(b, 64),
        set_tid_size: le_u64_at(b, 72),
        cgroup: le_u64_at(b, 80),
    }
}

impl LinuxCloneArgs {
    /// Reads the record; `None` when fewer than 88 bytes are given.
    pub fn from_bytes(bytes: &[u8]) -> (r: Option<Self>)
        ensures
            r == (if bytes@.len() < LINUX_CLONE_ARGS_SIZE {
                None
            } else {
                Some(clone_args_from_bytes(bytes@))
            }),
    {
        if bytes.len() < LINUX_CLONE_ARGS_SIZE {
            return None;
        }
        Some(
            LinuxCloneArgs {
                flags: read_u64_at(bytes, 0),
                pidfd: read_u64_at(bytes, 8),
                child_tid: read_u64_at(bytes, 16),
                parent_tid: read_u64_at(bytes, 24),
                exit_signal: read_u64_at(bytes, 32),
                stack: read_u64_at(bytes, 40),
                stack_size: read_u64_at(bytes, 48),
                tls: read_u64_at(bytes, 56),
                set_tid: read_u64_at(bytes, 64),
                set_tid_size: read_u64_at(bytes, 72),
                cgroup: read_u64_at(bytes, 80),
            },
        )
    }

    /// Checks a `clone3` request of `size` bytes: too small a record, pidfd, `set_tid` or
    /// cgroup targeting, or a stack size without a stack are `Inval`.
    pub fn validate(self, size: usize) -> (r: SysResult<()>)
        ensures
            r == (if size < LINUX_CLONE_ARGS_SIZE || self.pidfd != 0 || self.set_tid != 0
                || self.set_tid_size != 0 || self.cgroup != 0 || (self.stack == 0
                && self.stack_size != 0) {
                Err(SysErr::Inval)
            } else {
                Ok(())
            }),
    {
        if size < LINUX_CLONE_ARGS_SIZE {
            return Err(SysErr::Inval);
        }
        if self.pidfd != 0 || self.set_tid != 0 || self.set_tid_size != 0 || self.cgroup != 0 {
            return Err(SysErr::Inval);
        }
        if self.stack == 0 && self.stack_size != 0 {
            return Err(SysErr::Inval);
        }
        Ok(())
    }
}

} // verus!
