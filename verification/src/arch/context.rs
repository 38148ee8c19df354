//! The saved user register state of a task and the architecture-neutral view of it.
use vstd::prelude::*;

verus! {

/// The general-purpose registers of an x86_64 user task.
#[derive(Debug, Clone, Copy, PartialEq, Eq, Structural)]
pub struct GeneralRegs {
    pub rax: u64,
    pub rbx: u64,
    pub rcx: u64,
    pub rdx: u64,
    pub rsi: u64,
    pub rdi: u64,
    pub rbp: u64,
    pub rsp: u64,
    pub r8: u64,
    pub r9: u64,
    pub r10: u64,
    pub r11: u64,
    pub r12: u64,
    pub r13: u64,
    pub r14: u64,
    pub r15: u64,
    pub rip: u64,
    pub rflags: u64,
}

/// The saved user state of a task: its registers, the last trap, and its thread pointers.
#[derive(Debug, Clone, Copy, PartialEq, Eq, Structural)]
pub struct UserContext {
    pub general: GeneralRegs,
    pub trap_num: u64,
    pub error_code: u64,
    pub fs_base: u64,
    pub gs_base: u64,
}

/// Access to the parts of a saved user context that system calls use.
pub trait ArchContext {
    fn syscall_number(&self) -> u64;

    fn syscall_args(&self) -> [u64; 6];

    fn set_return_value(&mut self, value: u64);

    fn instruction_pointer(&self) -> u64;

    fn stack_pointer(&self) -> u64;

    fn set_stack_pointer(&mut self, value: u64);

    fn thread_pointer(&self) -> u64;

    fn set_thread_pointer(&mut self, value: u64);

    fn secondary_thread_pointer(&self) -> u64;

    fn set_secondary_thread_pointer(&mut self, value: u64);
}

/// The six system-call arguments in the order of the x86_64 calling convention.
pub open spec fn spec_syscall_args(c: UserContext) -> Seq<u64> {
    seq![c.general.rdi, c.general.rsi, c.general.rdx, c.general.r10, c.general.r8, c.general.r9]
}

impl ArchContext for UserContext {
    /// The system-call number, in `rax`.
    fn syscall_number(&self) -> (r: u64)
        ensures
            r == self.general.rax,
    {
        self.general.rax
    }

    /// The arguments, in `rdi`, `rsi`, `rdx`, `r10`, `r8` and `r9`.
    fn syscall_args(&self) -> (r: [u64; 6])
        ensures
            r@ == spec_syscall_args(*self),
    {
        let r = [
            self.general.rdi,
            self.general.rsi,
            self.general.rdx,
            self.general.r10,
            self.general.r8,
            self.general.r9,
        ];
        assert(r@ =~= spec_syscall_args(*self));
        r
    }

    /// The return value goes to `rax`.
    fn set_return_value(&mut self, value: u64)
        ensures
            *final(self) == (UserContext {
                general: GeneralRegs { rax: value, ..old(self).general },
                ..*old(self)
            }),
    {
        self.general.rax = value;
    }

    fn instruction_pointer(&self) -> (r: u64)
        ensures
            r == self.general.rip,
    {
        self.general.rip
    }

    fn stack_pointer(&self) -> (r: u64)
        ensures
            r == self.general.rsp,
    {
        self.general.rsp
    }

    fn set_stack_pointer(&mut self, value: u64)
        ensures
            *final(self) == (UserContext {
                general: GeneralRegs { rsp: value, ..old(self).general },
                ..*old(self)
            }),
    {
        self.general.rsp = value;
    }

    /// The thread pointer is the `fs` base.
    fn thread_pointer(&self) -> (r: u64)
        ensures
            r == self.fs_base,
    {
        self.fs_base
    }

    fn set_thread_pointer(&mut self, value: u64)
        ensures
            *final(self) == (UserContext { fs_base: value, ..*old(self) }),
    {
        self.fs_base = value;
    }

    /// The secondary thread pointer is the `gs` base.
    fn secondary_thread_pointer(&self) -> (r: u64)
        ensures
            r == self.gs_base,
    {
        self.gs_base
    }

    fn set_secondary_thread_pointer(&mut self, value: u64)
        ensures
            *final(self) == (UserContext { gs_base: value, ..*old(self) }),
    {
        self.gs_base = value;
    }
}

} // verus!
