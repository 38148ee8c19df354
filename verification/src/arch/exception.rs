//! Classification of the exceptions a user task raises.
use vstd::prelude::*;

verus! {

/// The kind of access that caused a page fault.
#[derive(Debug, Clone, Copy, PartialEq, Eq, Structural)]
pub enum PageFaultAccessType {
    Read,
    Write,
    Execute,
}

/// What the trap handler recorded of an exception raised in user mode.
#[derive(Debug, Clone, Copy, PartialEq, Eq, Structural)]
pub struct UserExceptionDetails {
    pub vector: u8,
    pub error_code: u64,
    pub fault_address: u64,
    pub instruction_pointer: u64,
}

/// A page fault, with its error code taken apart.
#[derive(Debug, Clone, Copy, PartialEq, Eq, Structural)]
pub struct PageFaultDetails {
    pub address: u64,
    pub instruction_pointer: u64,
    pub error_code: u64,
    pub access: PageFaultAccessType,
    pub present: bool,
    pub from_user: bool,
    pub reserved_bit: bool,
    pub instruction_fetch: bool,
}

/// How a user exception is handled: as a page fault, by sending a signal, or fatally.
#[derive(Debug, Clone, Copy, PartialEq, Eq, Structural)]
pub enum UserExceptionClass {
    PageFault(PageFaultDetails),
    Signal { signal: u8, details: UserExceptionDetails },
    Fatal(UserExceptionDetails),
}

/// Classifies a user exception with the rules of the architecture the kernel runs on.
pub fn classify_user_exception(details: UserExceptionDetails) -> (r: UserExceptionClass)
    ensures
        r == crate::arch::x86_64::exception::spec_classify(details),
{
    crate::arch::x86_64::exception::classify_user_exception(details)
}

} // verus!
