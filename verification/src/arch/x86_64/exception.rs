//! x86_64 exception vectors and the signals they raise.
use vstd::prelude::*;

use crate::arch::exception::{
    PageFaultAccessType, PageFaultDetails, UserExceptionClass, UserExceptionDetails,
};
use crate::signal::abi::{SIGFPE, SIGILL, SIGSEGV, SIGTRAP};

verus! {

/// The page-fault vector.
pub const PAGE_FAULT_VECTOR: u8 = 14;

/// The signal an exception vector raises: divide error gives `SIGFPE`, debug and breakpoint
/// `SIGTRAP`, invalid opcode `SIGILL`, general protection and page fault `SIGSEGV`.
pub open spec fn spec_exception_signal(vector: u8) -> Option<u8> {
    if vector == 0 {
        Some(SIGFPE)
    } else if vector == 1 || vector == 3 {
        Some(SIGTRAP)
    } else if vector == 6 {
        Some(SIGILL)
    } else if vector == 13 || vector == PAGE_FAULT_VECTOR {
        Some(SIGSEGV)
    } else {
        None
    }
}

/// The signal an exception vector raises, if any.
pub fn exception_signal(vector: u8) -> (r: Option<u8>)
    ensures
        r == spec_exception_signal(vector),
{
    match vector {
        0 => Some(SIGFPE),
        1 | 3 => Some(SIGTRAP),
        6 => Some(SIGILL),
        13 | PAGE_FAULT_VECTOR => Some(SIGSEGV),
        _ => None,
    }
}

/// The page fault that an error code and the recorded details describe: bit 4 marks an
/// instruction fetch (an execute access), bit 1 a write, bit 0 a present page, bit 2 a
/// user-mode access and bit 3 a reserved-bit violation.
pub open spec fn spec_page_fault(details: UserExceptionDetails) -> PageFaultDetails {
    let e = details.error_code;
    PageFaultDetails {
        address: details.fault_address,
        instruction_pointer: details.instruction_pointer,
        error_code: e,
        access: if e & 0x10 != 0 {
            PageFaultAccessType::Execute
        } else if e & 0x2 != 0 {
            PageFaultAccessType::Write
        } else {
            PageFaultAccessType::Read
        },
        present: e & 0x1 != 0,
        from_user: e & 0x4 != 0,
        reserved_bit: e & 0x8 != 0,
        instruction_fetch: e & 0x10 != 0,
    }
}

/// The class of a user exception: a page fault for vector 14, a signal for the vectors that
/// raise one, and fatal otherwise.
pub open spec fn spec_classify(details: UserExceptionDetails) -> UserExceptionClass {
    if details.vector == PAGE_FAULT_VECTOR {
        UserExceptionClass::PageFault(spec_page_fault(details))
    } else {
        match spec_exception_signal(details.vector) {
            Some(signal) => UserExceptionClass::Signal { signal, details },
            None => UserExceptionClass::Fatal(details),
        }
    }
}

/// The access type of a classified page fault; read for any other class.
pub open spec fn page_fault_access(class: UserExceptionClass) -> PageFaultAccessType {
    match class {
        UserExceptionClass::PageFault(p) => p.access,
        _ => PageFaultAccessType::Read,
    }
}

/// Vector 14 is a page fault, and its access type follows its error code: execute exactly
/// when bit 4 (0x10, an instruction fetch) is set, write exactly when bit 4 is clear and
/// bit 1 (0x2) set, read exactly when both are clear. Flipping any other bit (the
/// user-mode bit 2 among them) leaves it as it is.
pub proof fn lemma_page_fault_access(details: UserExceptionDetails, other_bits: u64)
    requires
        details.vector == 14,
        other_bits & 0x12 == 0,
    ensures
        spec_classify(details) is PageFault,
        (page_fault_access(spec_classify(details)) == PageFaultAccessType::Execute) <==> (details.error_code
            & 0x10 != 0),
        (page_fault_access(spec_classify(details)) == PageFaultAccessType::Write) <==> (details.error_code
            & 0x10 == 0 && details.error_code & 0x2 != 0),
        (page_fault_access(spec_classify(details)) == PageFaultAccessType::Read) <==> (details.error_code
            & 0x12 == 0),
        page_fault_access(spec_classify(UserExceptionDetails { error_code: details.error_code ^ other_bits, ..details }))
            == page_fault_access(spec_classify(details)),
{
    let e = details.error_code;
    let f = e ^ other_bits;
    assert(((e & 0x12 == 0) <==> (e & 0x10 == 0 && e & 0x2 == 0)) && (f & 0x10 != 0) == (e & 0x10 != 0) && (f
        & 0x2 != 0) == (e & 0x2 != 0)) by (bit_vector)
        requires
            f == e ^ other_bits,
            other_bits & 0x12 == 0,
    ;
}

/// Classifies a user exception.
pub fn classify_user_exception(details: UserExceptionDetails) -> (r: UserExceptionClass)
    ensures
        r == spec_classify(details),
        details.vector == 14 ==> r is PageFault && (page_fault_access(r) == PageFaultAccessType::Execute
            <==> details.error_code & 0x10 != 0) && (page_fault_access(r) == PageFaultAccessType::Write
            <==> (details.error_code & 0x10 == 0 && details.error_code & 0x2 != 0)),
{
    if details.vector == PAGE_FAULT_VECTOR {
        let error_code = details.error_code;
        let access = if (error_code & (1u64 << 4u64)) != 0 {
            PageFaultAccessType::Execute
        } else if (error_code & (1u64 << 1u64)) != 0 {
            PageFaultAccessType::Write
        } else {
            PageFaultAccessType::Read
        };
        proof {
            assert(1u64 << 4u64 == 0x10u64 && 1u64 << 1u64 == 0x2u64 && 1u64 << 2u64 == 0x4u64
                && 1u64 << 3u64 == 0x8u64) by (bit_vector);
        }
        return UserExceptionClass::PageFault(
            PageFaultDetails {
                address: details.fault_address,
                instruction_pointer: details.instruction_pointer,
                error_code,
                access,
                present: (error_code & 1) != 0,
                from_user: (error_code & (1u64 << 2u64)) != 0,
                reserved_bit: (error_code & (1u64 << 3u64)) != 0,
                instruction_fetch: (error_code & (1u64 << 4u64)) != 0,
            },
        );
    }
    match exception_signal(details.vector) {
        Some(signal) => UserExceptionClass::Signal { signal, details },
        None => UserExceptionClass::Fatal(details),
    }
}

/// An instruction fetch is always classified as an execute access.
pub proof fn lemma_fetch_is_execute(details: UserExceptionDetails)
    requires
        details.vector == PAGE_FAULT_VECTOR,
    ensures
        spec_classify(details) matches UserExceptionClass::PageFault(pf) && (pf.instruction_fetch
            <==> pf.access == PageFaultAccessType::Execute),
{
}

} // verus!
