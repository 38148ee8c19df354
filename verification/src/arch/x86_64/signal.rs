//! The x86_64 signal frame: where a handler's frame goes on the user stack, what it holds,
//! and how `rt_sigreturn` reads it back.
use vstd::prelude::*;

use crate::arch::context::{GeneralRegs, UserContext};
use crate::errno::SysErr;
use crate::signal::abi::{
    SA_NODEFER, SA_RESTORER, SA_SIGINFO, SignalAction, SignalInfo, SignalStack, sigbit,
    spec_sigbit,
};
use crate::wire::{
    i32_le, i64_le, le_i32_at, le_u32_at, le_u64_at, lemma_u32_roundtrip, lemma_u64_roundtrip,
    push_bytes, push_i32, push_i64, push_u32, push_u64, read_i32_at, read_u64_at, u32_le, u64_le,
};

verus! {

/// Bytes below the user stack pointer that a frame must not touch.
pub const X86_64_RED_ZONE_SIZE: u64 = 128;
/// Alignment of the frame's return-address slot, plus eight.
pub const X86_64_SIGNAL_FRAME_ALIGN: u64 = 16;
pub const USER_CODE_SELECTOR: u64 = 0x23;
pub const USER_DATA_SELECTOR: u64 = 0x1b;
/// Size of the `ucontext_t` record in the frame.
pub const UCONTEXT_SIZE: u64 = 968;
/// Size of the `siginfo_t` record in the frame.
pub const SIGINFO_SIZE: u64 = 128;
/// Size of the return trampoline (`mov eax, 15; syscall; ud2`).
pub const TRAMPOLINE_LEN: u64 = 9;

pub const X64_REG_R8: usize = 0;
pub const X64_REG_R9: usize = 1;
pub const X64_REG_R10: usize = 2;
pub const X64_REG_R11: usize = 3;
pub const X64_REG_R12: usize = 4;
pub const X64_REG_R13: usize = 5;
pub const X64_REG_R14: usize = 6;
pub const X64_REG_R15: usize = 7;
pub const X64_REG_RDI: usize = 8;
pub const X64_REG_RSI: usize = 9;
pub const X64_REG_RBP: usize = 10;
pub const X64_REG_RBX: usize = 11;
pub const X64_REG_RDX: usize = 12;
pub const X64_REG_RAX: usize = 13;
pub const X64_REG_RCX: usize = 14;
pub const X64_REG_RSP: usize = 15;
pub const X64_REG_RIP: usize = 16;
pub const X64_REG_EFL: usize = 17;
pub const X64_REG_CSGSFS: usize = 18;
pub const X64_REG_ERR: usize = 19;
pub const X64_REG_TRAPNO: usize = 20;

/// Why a signal frame could not be set up.
#[derive(Debug, Clone, Copy, PartialEq, Eq, Structural)]
pub enum SignalFrameError {
    InvalidFrame,
    UserMemory,
}

/// User handlers can be run on this architecture.
pub fn supports_user_handlers() -> (r: bool)
    ensures
        r,
{
    true
}

/// The return trampoline's bytes: `mov eax, 15` (`rt_sigreturn`), `syscall`, `ud2`.
pub open spec fn trampoline_bytes() -> Seq<u8> {
    seq![0xb8u8, 15u8, 0u8, 0u8, 0u8, 0x0fu8, 0x05u8, 0x0fu8, 0x0bu8]
}

fn trampoline() -> (r: Vec<u8>)
    ensures
        r@ == trampoline_bytes(),
{
    let r = vec![0xb8u8, 15u8, 0u8, 0u8, 0u8, 0x0fu8, 0x05u8, 0x0fu8, 0x0bu8];
    assert(r@ =~= trampoline_bytes());
    r
}

// ---- ucontext ------------------------------------------------------------------------

/// The `ucontext_t` record the frame holds.
pub struct LinuxUContext {
    pub uc_flags: u64,
    pub uc_link: u64,
    pub uc_stack: SignalStack,
    pub gregs: [u64; 23],
    pub fpregs: u64,
    pub reserved1: [u64; 8],
    pub sigmask: [u64; 16],
    pub fpregs_mem: [u8; 512],
    pub ssp: [u64; 4],
}

/// The contents of a `ucontext_t` record.
pub struct UContextView {
    pub uc_flags: u64,
    pub uc_link: u64,
    pub uc_stack: SignalStack,
    pub gregs: Seq<u64>,
    pub fpregs: u64,
    pub reserved1: Seq<u64>,
    pub sigmask: Seq<u64>,
    pub fpregs_mem: Seq<u8>,
    pub ssp: Seq<u64>,
}

impl View for LinuxUContext {
    type V = UContextView;

    open spec fn view(&self) -> UContextView {
        UContextView {
            uc_flags: self.uc_flags,
            uc_link: self.uc_link,
            uc_stack: self.uc_stack,
            gregs: self.gregs@,
            fpregs: self.fpregs,
            reserved1: self.reserved1@,
            sigmask: self.sigmask@,
            fpregs_mem: self.fpregs_mem@,
            ssp: self.ssp@,
        }
    }
}

/// The arrays of a record have their ABI lengths.
pub open spec fn ucontext_wf(u: UContextView) -> bool {
    &&& u.gregs.len() == 23
    &&& u.reserved1.len() == 8
    &&& u.sigmask.len() == 16
    &&& u.fpregs_mem.len() == 512
    &&& u.ssp.len() == 4
}

/// The bytes of a sequence of words, each least significant byte first.
pub open spec fn words_le(s: Seq<u64>) -> Seq<u8>
    decreases s.len(),
{
    if s.len() == 0 {
        Seq::empty()
    } else {
        words_le(s.drop_last()) + u64_le(s.last())
    }
}

/// The bytes of a `stack_t` inside a record.
pub open spec fn stack_le(s: SignalStack) -> Seq<u8> {
    u64_le(s.ss_sp) + i32_le(s.ss_flags) + i32_le(s._pad) + u64_le(s.ss_size)
}

/// The 968 bytes of a `ucontext_t` record.
pub open spec fn ucontext_bytes(u: UContextView) -> Seq<u8> {
    u64_le(u.uc_flags) + u64_le(u.uc_link) + stack_le(u.uc_stack) + words_le(u.gregs) + u64_le(
        u.fpregs,
    ) + words_le(u.reserved1) + words_le(u.sigmask) + u.fpregs_mem + words_le(u.ssp)
}

/// Offsets of the record's parts.
pub const UC_STACK_OFF: usize = 16;
pub const UC_GREGS_OFF: usize = 40;
pub const UC_FPREGS_OFF: usize = 224;
pub const UC_RESERVED_OFF: usize = 232;
pub const UC_SIGMASK_OFF: usize = 296;
pub const UC_FPMEM_OFF: usize = 424;
pub const UC_SSP_OFF: usize = 936;

/// The record that 968 bytes hold.
pub open spec fn ucontext_from_bytes(b: Seq<u8>) -> UContextView {
    UContextView {
        uc_flags: le_u64_at(b, 0),
        uc_link: le_u64_at(b, 8),
        uc_stack: SignalStack {
            ss_sp: le_u64_at(b, 16),
            ss_flags: le_i32_at(b, 24),
            _pad: le_i32_at(b, 28),
            ss_size: le_u64_at(b, 32),
        },
        gregs: Seq::new(23, |j: int| le_u64_at(b, 40 + 8 * j)),
        fpregs: le_u64_at(b, 224),
        reserved1: Seq::new(8, |j: int| le_u64_at(b, 232 + 8 * j)),
        sigmask: Seq::new(16, |j: int| le_u64_at(b, 296 + 8 * j)),
        fpregs_mem: b.subrange(424, 936),
        ssp: Seq::new(4, |j: int| le_u64_at(b, 936 + 8 * j)),
    }
}

proof fn lemma_words_len(s: Seq<u64>)
    ensures
        words_le(s).len() == 8 * s.len(),
    decreases s.len(),
{
    if s.len() > 0 {
        lemma_words_len(s.drop_last());
    }
}

/// Word `j` of a sequence is read back from byte `8 j` of its encoding.
proof fn lemma_words_at(s: Seq<u64>, j: int)
    requires
        0 <= j < s.len(),
    ensures
        le_u64_at(words_le(s), 8 * j) == s[j],
    decreases s.len(),
{
    let a = words_le(s.drop_last());
    let b = u64_le(s.last());
    lemma_words_len(s.drop_last());
    lemma_u64_roundtrip(s.last());
    if j == s.len() - 1 {
        crate::wire::lemma_le_u64_at_concat(a, b, 0);
    } else {
        lemma_words_at(s.drop_last(), j);
        crate::wire::lemma_le_u64_at_prefix(a, b, 8 * j);
    }
}

/// A read that falls wholly inside the middle part of `p + w + s` reads the middle part.
proof fn lemma_u64_in_middle(p: Seq<u8>, w: Seq<u8>, s: Seq<u8>, off: int)
    requires
        0 <= off,
        off + 8 <= w.len(),
    ensures
        le_u64_at(p + w + s, p.len() + off) == le_u64_at(w, off),
{
    let t = p + w + s;
    assert(t[p.len() + off + 0] == w[off + 0]);
    assert(t[p.len() + off + 1] == w[off + 1]);
    assert(t[p.len() + off + 2] == w[off + 2]);
    assert(t[p.len() + off + 3] == w[off + 3]);
    assert(t[p.len() + off + 4] == w[off + 4]);
    assert(t[p.len() + off + 5] == w[off + 5]);
    assert(t[p.len() + off + 6] == w[off + 6]);
    assert(t[p.len() + off + 7] == w[off + 7]);
}

proof fn lemma_u32_in_middle(p: Seq<u8>, w: Seq<u8>, s: Seq<u8>, off: int)
    requires
        0 <= off,
        off + 4 <= w.len(),
    ensures
        le_u32_at(p + w + s, p.len() + off) == le_u32_at(w, off),
{
    let t = p + w + s;
    assert(t[p.len() + off + 0] == w[off + 0]);
    assert(t[p.len() + off + 1] == w[off + 1]);
    assert(t[p.len() + off + 2] == w[off + 2]);
    assert(t[p.len() + off + 3] == w[off + 3]);
}

proof fn lemma_words_in_middle(p: Seq<u8>, ws: Seq<u64>, s: Seq<u8>, j: int)
    requires
        0 <= j < ws.len(),
    ensures
        le_u64_at(p + words_le(ws) + s, p.len() + 8 * j) == ws[j],
{
    lemma_words_len(ws);
    lemma_words_at(ws, j);
    lemma_u64_in_middle(p, words_le(ws), s, 8 * j);
}

/// Reading back the encoding of a well-formed record gives the same record.
pub proof fn lemma_ucontext_roundtrip(u: UContextView)
    requires
        ucontext_wf(u),
    ensures
        ucontext_bytes(u).len() == UCONTEXT_SIZE,
        ucontext_from_bytes(ucontext_bytes(u)) == u,
{
    let f0 = u64_le(u.uc_flags);
    let f1 = u64_le(u.uc_link);
    let f2 = stack_le(u.uc_stack);
    let f3 = words_le(u.gregs);
    let f4 = u64_le(u.fpregs);
    let f5 = words_le(u.reserved1);
    let f6 = words_le(u.sigmask);
    let f7 = u.fpregs_mem;
    let f8 = words_le(u.ssp);
    lemma_words_len(u.gregs);
    lemma_words_len(u.reserved1);
    lemma_words_len(u.sigmask);
    lemma_words_len(u.ssp);
    let b = ucontext_bytes(u);
    assert(b.len() == 968);
    let e = Seq::<u8>::empty();
    // uc_flags and uc_link
    lemma_u64_roundtrip(u.uc_flags);
    lemma_u64_roundtrip(u.uc_link);
    assert(b =~= e + f0 + (f1 + f2 + f3 + f4 + f5 + f6 + f7 + f8));
    lemma_u64_in_middle(e, f0, f1 + f2 + f3 + f4 + f5 + f6 + f7 + f8, 0);
    assert(b =~= f0 + f1 + (f2 + f3 + f4 + f5 + f6 + f7 + f8));
    lemma_u64_in_middle(f0, f1, f2 + f3 + f4 + f5 + f6 + f7 + f8, 0);
    // uc_stack
    let st = u.uc_stack;
    let s0 = u64_le(st.ss_sp);
    let s1 = i32_le(st.ss_flags);
    let s2 = i32_le(st._pad);
    let s3 = u64_le(st.ss_size);
    let rest = f3 + f4 + f5 + f6 + f7 + f8;
    lemma_u64_roundtrip(st.ss_sp);
    lemma_u64_roundtrip(st.ss_size);
    crate::wire::lemma_i32_roundtrip(st.ss_flags);
    crate::wire::lemma_i32_roundtrip(st._pad);
    assert(b =~= (f0 + f1) + s0 + (s1 + s2 + s3 + rest));
    lemma_u64_in_middle(f0 + f1, s0, s1 + s2 + s3 + rest, 0);
    assert(b =~= (f0 + f1 + s0) + s1 + (s2 + s3 + rest));
    lemma_u32_in_middle(f0 + f1 + s0, s1, s2 + s3 + rest, 0);
    assert(b =~= (f0 + f1 + s0 + s1) + s2 + (s3 + rest));
    lemma_u32_in_middle(f0 + f1 + s0 + s1, s2, s3 + rest, 0);
    assert(b =~= (f0 + f1 + s0 + s1 + s2) + s3 + rest);
    lemma_u64_in_middle(f0 + f1 + s0 + s1 + s2, s3, rest, 0);
    // gregs
    let p3 = f0 + f1 + f2;
    assert(b =~= p3 + f3 + (f4 + f5 + f6 + f7 + f8));
    assert forall|j: int| 0 <= j < 23 implies le_u64_at(b, 40 + 8 * j) == u.gregs[j] by {
        lemma_words_in_middle(p3, u.gregs, f4 + f5 + f6 + f7 + f8, j);
    }
    assert(ucontext_from_bytes(b).gregs =~= u.gregs);
    // fpregs
    lemma_u64_roundtrip(u.fpregs);
    assert(b =~= (p3 + f3) + f4 + (f5 + f6 + f7 + f8));
    lemma_u64_in_middle(p3 + f3, f4, f5 + f6 + f7 + f8, 0);
    // reserved1
    let p5 = p3 + f3 + f4;
    assert(b =~= p5 + f5 + (f6 + f7 + f8));
    assert forall|j: int| 0 <= j < 8 implies le_u64_at(b, 232 + 8 * j) == u.reserved1[j] by {
        lemma_words_in_middle(p5, u.reserved1, f6 + f7 + f8, j);
    }
    assert(ucontext_from_bytes(b).reserved1 =~= u.reserved1);
    // sigmask
    let p6 = p5 + f5;
    assert(b =~= p6 + f6 + (f7 + f8));
    assert forall|j: int| 0 <= j < 16 implies le_u64_at(b, 296 + 8 * j) == u.sigmask[j] by {
        lemma_words_in_middle(p6, u.sigmask, f7 + f8, j);
    }
    assert(ucontext_from_bytes(b).sigmask =~= u.sigmask);
    // fpregs_mem
    let p7 = p6 + f6;
    assert(b =~= p7 + f7 + f8);
    assert(b.subrange(424, 936) =~= f7);
    // ssp
    let p8 = p7 + f7;
    assert(b =~= p8 + f8 + e);
    assert forall|j: int| 0 <= j < 4 implies le_u64_at(b, 936 + 8 * j) == u.ssp[j] by {
        lemma_words_in_middle(p8, u.ssp, e, j);
    }
    assert(ucontext_from_bytes(b).ssp =~= u.ssp);
}

fn push_words(bytes: &mut Vec<u8>, words: &[u64])
    ensures
        final(bytes)@ == old(bytes)@ + words_le(words@),
{
    let mut i: usize = 0;
    while i < words.len()
        invariant
            i <= words@.len(),
            bytes@ == old(bytes)@ + words_le(words@.subrange(0, i as int)),
        decreases words@.len() - i,
    {
        let ghost before = bytes@;
        push_u64(bytes, words[i]);
        proof {
            let t = words@.subrange(0, i + 1);
            assert(t.drop_last() =~= words@.subrange(0, i as int));
            assert(t.last() == words@[i as int]);
        }
        i = i + 1;
    }
    assert(words@.subrange(0, words@.len() as int) =~= words@);
}

/// Every record's arrays have their ABI lengths, and its 968 bytes read back as the
/// record.
pub proof fn lemma_record_roundtrip(u: &LinuxUContext)
    ensures
        ucontext_wf(u@),
        ucontext_bytes(u@).len() == UCONTEXT_SIZE,
        ucontext_from_bytes(ucontext_bytes(u@)) == u@,
{
    lemma_ucontext_roundtrip(u@);
}

/// Writes a `ucontext_t` record: its 968 bytes.
pub fn serialize_ucontext(ucontext: &LinuxUContext) -> (r: Vec<u8>)
    ensures
        r@ == ucontext_bytes(ucontext@),
        r@.len() == UCONTEXT_SIZE,
{
    let mut bytes: Vec<u8> = Vec::with_capacity(968);
    push_u64(&mut bytes, ucontext.uc_flags);
    push_u64(&mut bytes, ucontext.uc_link);
    push_u64(&mut bytes, ucontext.uc_stack.ss_sp);
    push_i32(&mut bytes, ucontext.uc_stack.ss_flags);
    push_i32(&mut bytes, ucontext.uc_stack._pad);
    push_u64(&mut bytes, ucontext.uc_stack.ss_size);
    push_words(&mut bytes, ucontext.gregs.as_slice());
    push_u64(&mut bytes, ucontext.fpregs);
    push_words(&mut bytes, ucontext.reserved1.as_slice());
    push_words(&mut bytes, ucontext.sigmask.as_slice());
    push_bytes(&mut bytes, ucontext.fpregs_mem.as_slice());
    push_words(&mut bytes, ucontext.ssp.as_slice());
    assert(bytes@ =~= ucontext_bytes(ucontext@));
    assert(bytes@.len() == UCONTEXT_SIZE) by {
        lemma_record_roundtrip(ucontext);
    }
    bytes
}

fn read_words<const N: usize>(bytes: &[u8], off: usize, out: &mut [u64; N])
    requires
        off + 8 * N <= bytes@.len(),
    ensures
        final(out)@ == Seq::new(N as nat, |j: int| le_u64_at(bytes@, off + 8 * j)),
{
    let n = bytes.len();
    let mut j: usize = 0;
    while j < N
        invariant
            j <= N,
            n == bytes@.len(),
            off + 8 * N <= bytes@.len(),
            out@.len() == N,
            forall|k: int| 0 <= k < j ==> #[trigger] out@[k] == le_u64_at(bytes@, off + 8 * k),
        decreases N - j,
    {
        proof {
            assert(8 * j + 8 <= 8 * N) by (nonlinear_arith)
                requires
                    j < N,
            ;
        }
        out[j] = read_u64_at(bytes, off + 8 * j);
        j = j + 1;
    }
    assert(out@ =~= Seq::new(N as nat, |j: int| le_u64_at(bytes@, off + 8 * j)));
}

/// Reads a `ucontext_t` record; `None` unless exactly 968 bytes are given.
pub fn decode_ucontext(bytes: &[u8]) -> (r: Option<LinuxUContext>)
    ensures
        bytes@.len() != UCONTEXT_SIZE ==> r is None,
        bytes@.len() == UCONTEXT_SIZE ==> r is Some && r->0@ == ucontext_from_bytes(bytes@),
{
    if bytes.len() != 968 {
        return None;
    }
    let mut fpregs_mem = [0u8; 512];
    let mut i: usize = 0;
    while i < 512
        invariant
            i <= 512,
            bytes@.len() == 968,
            fpregs_mem@.len() == 512,
            forall|k: int| 0 <= k < i ==> #[trigger] fpregs_mem@[k] == bytes@[UC_FPMEM_OFF + k],
        decreases 512 - i,
    {
        fpregs_mem[i] = bytes[UC_FPMEM_OFF + i];
        i = i + 1;
    }
    assert(fpregs_mem@ =~= bytes@.subrange(UC_FPMEM_OFF as int, UC_SSP_OFF as int));
    let mut gregs = [0u64; 23];
    read_words(bytes, UC_GREGS_OFF, &mut gregs);
    let mut reserved1 = [0u64; 8];
    read_words(bytes, UC_RESERVED_OFF, &mut reserved1);
    let mut sigmask = [0u64; 16];
    read_words(bytes, UC_SIGMASK_OFF, &mut sigmask);
    let mut ssp = [0u64; 4];
    read_words(bytes, UC_SSP_OFF, &mut ssp);
    let r = LinuxUContext {
        uc_flags: read_u64_at(bytes, 0),
        uc_link: read_u64_at(bytes, 8),
        uc_stack: SignalStack {
            ss_sp: read_u64_at(bytes, 16),
            ss_flags: read_i32_at(bytes, 24),
            _pad: read_i32_at(bytes, 28),
            ss_size: read_u64_at(bytes, 32),
        },
        gregs,
        fpregs: read_u64_at(bytes, UC_FPREGS_OFF),
        reserved1,
        sigmask,
        fpregs_mem,
        ssp,
    };
    assert(r@ == ucontext_from_bytes(bytes@));
    Some(r)
}

/// The general registers a record saves, in the slot order of `mcontext_t`.
pub open spec fn saved_gregs(c: UserContext) -> Seq<u64> {
    let g = c.general;
    seq![
        g.r8,
        g.r9,
        g.r10,
        g.r11,
        g.r12,
        g.r13,
        g.r14,
        g.r15,
        g.rdi,
        g.rsi,
        g.rbp,
        g.rbx,
        g.rdx,
        g.rax,
        g.rcx,
        g.rsp,
        g.rip,
        g.rflags,
        USER_CODE_SELECTOR | (USER_DATA_SELECTOR << 48u64),
        c.error_code,
        c.trap_num,
        0u64,
        0u64,
    ]
}

/// The record saved for a handler: the registers of `c`, the blocked mask `mask` in the
/// first word of the signal mask, and zero everywhere else.
pub open spec fn spec_build_ucontext(c: UserContext, mask: u64) -> UContextView {
    UContextView {
        uc_flags: 0,
        uc_link: 0,
        uc_stack: SignalStack { ss_sp: 0, ss_flags: 0, _pad: 0, ss_size: 0 },
        gregs: saved_gregs(c),
        fpregs: 0,
        reserved1: Seq::new(8, |j: int| 0u64),
        sigmask: Seq::new(16, |j: int| if j == 0 { mask } else { 0u64 }),
        fpregs_mem: Seq::new(512, |j: int| 0u8),
        ssp: Seq::new(4, |j: int| 0u64),
    }
}

fn zero_bytes(n: usize) -> (r: Vec<u8>)
    ensures
        r@ == Seq::new(n as nat, |j: int| 0u8),
{
    let mut v: Vec<u8> = Vec::with_capacity(n);
    let mut i: usize = 0;
    while i < n
        invariant
            i <= n,
            v@ =~= Seq::new(i as nat, |j: int| 0u8),
        decreases n - i,
    {
        v.push(0);
        i = i + 1;
    }
    v
}

/// The record saved for a handler.
pub fn build_ucontext(context: UserContext, mask: u64) -> (r: LinuxUContext)
    ensures
        r@ == spec_build_ucontext(context, mask),
{
    let g = context.general;
    let mut gregs = [0u64; 23];
    gregs[X64_REG_R8] = g.r8;
    gregs[X64_REG_R9] = g.r9;
    gregs[X64_REG_R10] = g.r10;
    gregs[X64_REG_R11] = g.r11;
    gregs[X64_REG_R12] = g.r12;
    gregs[X64_REG_R13] = g.r13;
    gregs[X64_REG_R14] = g.r14;
    gregs[X64_REG_R15] = g.r15;
    gregs[X64_REG_RDI] = g.rdi;
    gregs[X64_REG_RSI] = g.rsi;
    gregs[X64_REG_RBP] = g.rbp;
    gregs[X64_REG_RBX] = g.rbx;
    gregs[X64_REG_RDX] = g.rdx;
    gregs[X64_REG_RAX] = g.rax;
    gregs[X64_REG_RCX] = g.rcx;
    gregs[X64_REG_RSP] = g.rsp;
    gregs[X64_REG_RIP] = g.rip;
    gregs[X64_REG_EFL] = g.rflags;
    gregs[X64_REG_CSGSFS] = USER_CODE_SELECTOR | (USER_DATA_SELECTOR << 48u64);
    gregs[X64_REG_ERR] = context.error_code;
    gregs[X64_REG_TRAPNO] = context.trap_num;
    let mut sigmask = [0u64; 16];
    sigmask[0] = mask;
    let r = LinuxUContext {
        uc_flags: 0,
        uc_link: 0,
        uc_stack: SignalStack { ss_sp: 0, ss_flags: 0, _pad: 0, ss_size: 0 },
        gregs,
        fpregs: 0,
        reserved1: [0u64; 8],
        sigmask,
        fpregs_mem: [0u8; 512],
        ssp: [0u64; 4],
    };
    assert(r@.gregs =~= saved_gregs(context));
    assert(r@.reserved1 =~= Seq::new(8, |j: int| 0u64));
    assert(r@.fpregs_mem =~= Seq::new(512, |j: int| 0u8));
    assert(r@.ssp =~= Seq::new(4, |j: int| 0u64));
    assert(r@.sigmask =~= Seq::new(16, |j: int| if j == 0 { mask } else { 0u64 }));
    r
}

/// The context after `rt_sigreturn`: the registers saved in the record's slots, the trap
/// number and error code from theirs, and the thread pointers of `current`.
pub open spec fn spec_restore_ucontext(current: UserContext, g: Seq<u64>) -> UserContext {
    UserContext {
        general: GeneralRegs {
            r8: g[X64_REG_R8 as int],
            r9: g[X64_REG_R9 as int],
            r10: g[X64_REG_R10 as int],
            r11: g[X64_REG_R11 as int],
            r12: g[X64_REG_R12 as int],
            r13: g[X64_REG_R13 as int],
            r14: g[X64_REG_R14 as int],
            r15: g[X64_REG_R15 as int],
            rdi: g[X64_REG_RDI as int],
            rsi: g[X64_REG_RSI as int],
            rbp: g[X64_REG_RBP as int],
            rbx: g[X64_REG_RBX as int],
            rdx: g[X64_REG_RDX as int],
            rax: g[X64_REG_RAX as int],
            rcx: g[X64_REG_RCX as int],
            rsp: g[X64_REG_RSP as int],
            rip: g[X64_REG_RIP as int],
            rflags: g[X64_REG_EFL as int],
        },
        trap_num: g[X64_REG_TRAPNO as int],
        error_code: g[X64_REG_ERR as int],
        ..current
    }
}

/// The context after `rt_sigreturn` from `ucontext`.
pub fn restore_ucontext(current: UserContext, ucontext: &LinuxUContext) -> (r: UserContext)
    ensures
        r == spec_restore_ucontext(current, ucontext.gregs@),
{
    let g = &ucontext.gregs;
    let mut restored = current;
    restored.general.r8 = g[X64_REG_R8];
    restored.general.r9 = g[X64_REG_R9];
    restored.general.r10 = g[X64_REG_R10];
    restored.general.r11 = g[X64_REG_R11];
    restored.general.r12 = g[X64_REG_R12];
    restored.general.r13 = g[X64_REG_R13];
    restored.general.r14 = g[X64_REG_R14];
    restored.general.r15 = g[X64_REG_R15];
    restored.general.rdi = g[X64_REG_RDI];
    restored.general.rsi = g[X64_REG_RSI];
    restored.general.rbp = g[X64_REG_RBP];
    restored.general.rbx = g[X64_REG_RBX];
    restored.general.rdx = g[X64_REG_RDX];
    restored.general.rax = g[X64_REG_RAX];
    restored.general.rcx = g[X64_REG_RCX];
    restored.general.rsp = g[X64_REG_RSP];
    restored.general.rip = g[X64_REG_RIP];
    restored.general.rflags = g[X64_REG_EFL];
    restored.trap_num = g[X64_REG_TRAPNO];
    restored.error_code = g[X64_REG_ERR];
    restored
}

/// Returning from a handler whose frame was not touched gives back the interrupted
/// context exactly, and the mask that was saved.
pub proof fn lemma_sigreturn_restores_context(c: UserContext, current: UserContext, mask: u64)
    requires
        current.fs_base == c.fs_base,
        current.gs_base == c.gs_base,
    ensures
        ({
            let u = spec_build_ucontext(c, mask);
            let back = ucontext_from_bytes(ucontext_bytes(u));
            &&& spec_restore_ucontext(current, back.gregs) == c
            &&& back.sigmask[0] == mask
        }),
{
    let u = spec_build_ucontext(c, mask);
    assert(ucontext_wf(u));
    lemma_ucontext_roundtrip(u);
}

// ---- siginfo ---------------------------------------------------------------------------

/// The `siginfo_t` fields the kernel fills; the rest of the 128-byte record is zero.
#[derive(Debug, Clone, Copy, PartialEq, Eq, Structural)]
pub struct LinuxSiginfo {
    pub si_signo: i32,
    pub si_errno: i32,
    pub si_code: i32,
    pub _pad0: i32,
    pub si_pid: i32,
    pub si_uid: u32,
    pub si_status: i32,
    pub _pad1: i32,
    pub si_utime: i64,
    pub si_stime: i64,
}

/// The `siginfo_t` a handler receives for `info`.
pub open spec fn spec_build_siginfo(info: SignalInfo) -> LinuxSiginfo {
    LinuxSiginfo {
        si_signo: info.signal as i32,
        si_errno: 0,
        si_code: info.code,
        _pad0: 0,
        si_pid: info.pid,
        si_uid: info.uid,
        si_status: info.status,
        _pad1: 0,
        si_utime: 0,
        si_stime: 0,
    }
}

/// The `siginfo_t` a handler receives for `info`.
pub fn build_siginfo(info: SignalInfo) -> (r: LinuxSiginfo)
    ensures
        r == spec_build_siginfo(info),
{
    LinuxSiginfo {
        si_signo: info.signal as i32,
        si_errno: 0,
        si_code: info.code,
        _pad0: 0,
        si_pid: info.pid,
        si_uid: info.uid,
        si_status: info.status,
        _pad1: 0,
        si_utime: 0,
        si_stime: 0,
    }
}

/// The 128 bytes of a `siginfo_t` record.
pub open spec fn siginfo_bytes(s: LinuxSiginfo) -> Seq<u8> {
    i32_le(s.si_signo) + i32_le(s.si_errno) + i32_le(s.si_code) + i32_le(s._pad0) + i32_le(
        s.si_pid,
    ) + u32_le(s.si_uid) + i32_le(s.si_status) + i32_le(s._pad1) + i64_le(s.si_utime) + i64_le(
        s.si_stime,
    ) + Seq::new(80, |j: int| 0u8)
}

/// Writes a `siginfo_t` record.
pub fn serialize_siginfo(info: &LinuxSiginfo) -> (r: Vec<u8>)
    ensures
        r@ == siginfo_bytes(*info),
        r@.len() == SIGINFO_SIZE,
{
    let mut bytes: Vec<u8> = Vec::with_capacity(128);
    push_i32(&mut bytes, info.si_signo);
    push_i32(&mut bytes, info.si_errno);
    push_i32(&mut bytes, info.si_code);
    push_i32(&mut bytes, info._pad0);
    push_i32(&mut bytes, info.si_pid);
    push_u32(&mut bytes, info.si_uid);
    push_i32(&mut bytes, info.si_status);
    push_i32(&mut bytes, info._pad1);
    push_i64(&mut bytes, info.si_utime);
    push_i64(&mut bytes, info.si_stime);
    let zeros = zero_bytes(80);
    push_bytes(&mut bytes, zeros.as_slice());
    assert(bytes@ =~= siginfo_bytes(*info));
    bytes
}

// ---- frame layout ----------------------------------------------------------------------

/// Where the parts of a signal frame go.
#[derive(Debug, Clone, Copy, PartialEq, Eq, Structural)]
pub struct SignalFrameLayout {
    pub frame_base: u64,
    pub ucontext_addr: u64,
    pub siginfo_addr: u64,
    pub trampoline_addr: u64,
    pub uses_stack_trampoline: bool,
    /// The address the handler returns to: the stack trampoline, or the action's restorer.
    pub return_target: u64,
}

/// Whether the frame carries its own return trampoline: the action has no restorer.
pub open spec fn needs_trampoline(action: SignalAction) -> bool {
    action.flags & SA_RESTORER == 0 || action.restorer == 0
}

/// The bytes a frame needs below the red zone.
pub open spec fn frame_bytes(action: SignalAction) -> int {
    8 + UCONTEXT_SIZE + SIGINFO_SIZE + if needs_trampoline(action) {
        TRAMPOLINE_LEN as int
    } else {
        0
    }
}

/// `value` rounded down to a multiple of 16.
pub open spec fn align_down16(value: int) -> int {
    value - value % 16
}

/// The frame base chosen for a stack pointer: the highest address that is 8 above a
/// multiple of 16 and leaves room for the frame below the red zone (or 0 when the only
/// such address is below 8).
pub open spec fn spec_frame_base(user_rsp: u64, action: SignalAction) -> int {
    let low = user_rsp - X86_64_RED_ZONE_SIZE - frame_bytes(action);
    let candidate = align_down16(low) + 8;
    if candidate > low {
        if candidate >= 16 {
            candidate - 16
        } else {
            0
        }
    } else {
        candidate
    }
}

/// The layout of a frame for a handler running with stack pointer `user_rsp`; `None` when
/// the stack has no room below the red zone for it.
pub open spec fn spec_frame_layout(user_rsp: u64, action: SignalAction) -> Option<
    SignalFrameLayout,
> {
    if user_rsp < X86_64_RED_ZONE_SIZE + frame_bytes(action) {
        None
    } else {
        let base = spec_frame_base(user_rsp, action);
        let tramp = needs_trampoline(action);
        Some(
            SignalFrameLayout {
                frame_base: base as u64,
                ucontext_addr: (base + 8) as u64,
                siginfo_addr: (base + 8 + UCONTEXT_SIZE) as u64,
                trampoline_addr: (base + 8 + UCONTEXT_SIZE + SIGINFO_SIZE) as u64,
                uses_stack_trampoline: tramp,
                return_target: if tramp {
                    (base + 8 + UCONTEXT_SIZE + SIGINFO_SIZE) as u64
                } else {
                    action.restorer
                },
            },
        )
    }
}

fn align_down(value: u64, align: u64) -> (r: u64)
    requires
        align == 16,
    ensures
        r == align_down16(value as int),
{
    proof {
        assert(value & !15u64 == value - value % 16) by (bit_vector);
    }
    value & !(align - 1)
}

impl SignalFrameLayout {
    /// Lays out a frame below `user_rsp` and its red zone: return address, `ucontext_t`,
    /// `siginfo_t` and, when the action has no restorer, the return trampoline.
    pub fn new(user_rsp: u64, action: SignalAction) -> (r: Result<Self, SignalFrameError>)
        ensures
            r matches Ok(layout) ==> spec_frame_layout(user_rsp, action) == Some(layout),
            r is Err ==> spec_frame_layout(user_rsp, action) is None && r == Err::<
                Self,
                SignalFrameError,
            >(SignalFrameError::InvalidFrame),
    {
        let trampoline_bytes: u64 = if (action.flags & SA_RESTORER) == 0 || action.restorer == 0 {
            TRAMPOLINE_LEN
        } else {
            0
        };
        let fixed_bytes = 8 + UCONTEXT_SIZE + SIGINFO_SIZE + trampoline_bytes;
        let stack_top = match user_rsp.checked_sub(X86_64_RED_ZONE_SIZE) {
            Some(top) => top,
            None => {
                return Err(SignalFrameError::InvalidFrame);
            },
        };
        let low = match stack_top.checked_sub(fixed_bytes) {
            Some(low) => low,
            None => {
                return Err(SignalFrameError::InvalidFrame);
            },
        };
        let aligned = align_down(low, X86_64_SIGNAL_FRAME_ALIGN);
        let mut frame_base = match aligned.checked_add(8) {
            Some(base) => base,
            None => {
                return Err(SignalFrameError::InvalidFrame);
            },
        };
        if frame_base > stack_top.saturating_sub(fixed_bytes) {
            frame_base = frame_base.saturating_sub(X86_64_SIGNAL_FRAME_ALIGN);
        }
        assert(frame_base as int == spec_frame_base(user_rsp, action));
        let ucontext_addr = frame_base + 8;
        let siginfo_addr = ucontext_addr + UCONTEXT_SIZE;
        let trampoline_addr = siginfo_addr + SIGINFO_SIZE;
        let uses_stack_trampoline = trampoline_bytes != 0;
        let return_target = if uses_stack_trampoline {
            trampoline_addr
        } else {
            action.restorer
        };
        Ok(
            SignalFrameLayout {
                frame_base,
                ucontext_addr,
                siginfo_addr,
                trampoline_addr,
                uses_stack_trampoline,
                return_target,
            },
        )
    }
}

/// A laid-out frame fits below the red zone, and its parts follow each other.
pub proof fn lemma_frame_fits(user_rsp: u64, action: SignalAction)
    requires
        spec_frame_layout(user_rsp, action) is Some,
    ensures
        ({
            let l = spec_frame_layout(user_rsp, action)->0;
            &&& l.frame_base + frame_bytes(action) <= user_rsp - X86_64_RED_ZONE_SIZE
            &&& l.ucontext_addr == l.frame_base + 8
            &&& l.siginfo_addr == l.ucontext_addr + UCONTEXT_SIZE
            &&& l.trampoline_addr == l.siginfo_addr + SIGINFO_SIZE
            &&& (l.frame_base >= 8 ==> l.frame_base % 16 == 8)
        }),
{
}

// ---- delivery and return ---------------------------------------------------------------

/// One write to user memory.
pub struct UserWrite {
    pub address: u64,
    pub bytes: Vec<u8>,
}

/// What delivering a signal to a handler takes: the frame's writes to user memory, in
/// order, and — once they all succeed — the task's new context and blocked mask.
pub struct SignalFramePlan {
    pub writes: Vec<UserWrite>,
    pub context: UserContext,
    pub blocked: u64,
}

/// The context a handler starts in: at the handler, on the frame, with the signal number as
/// first argument and, for `SA_SIGINFO`, the `siginfo_t` and `ucontext_t` as the others.
pub open spec fn handler_context(
    saved: UserContext,
    layout: SignalFrameLayout,
    signal: SignalInfo,
    action: SignalAction,
) -> UserContext {
    let siginfo = action.flags & SA_SIGINFO != 0;
    UserContext {
        general: GeneralRegs {
            rip: action.handler,
            rsp: layout.frame_base,
            rdi: signal.signal as u64,
            rsi: if siginfo {
                layout.siginfo_addr
            } else {
                0
            },
            rdx: if siginfo {
                layout.ucontext_addr
            } else {
                0
            },
            ..saved.general
        },
        ..saved
    }
}

/// The mask while the handler runs: the saved mask, the action's mask and, unless
/// `SA_NODEFER`, the signal itself.
pub open spec fn handler_mask(saved_mask: u64, signal: SignalInfo, action: SignalAction) -> u64 {
    if action.flags & SA_NODEFER == 0 {
        saved_mask | action.mask | spec_sigbit(signal.signal)
    } else {
        saved_mask | action.mask
    }
}

/// Plans the delivery of `signal` to the handler of `action` for a task whose saved state is
/// `saved` with blocked mask `saved_mask`. A handler of `SIG_DFL` or `SIG_IGN`, or a stack
/// without room, is refused with `InvalidFrame`; any other delivery succeeds. The plan writes the return address at the
/// frame base, then the `ucontext_t`, the `siginfo_t` and, when needed, the trampoline.
pub fn deliver_signal_to_user(
    saved: &UserContext,
    saved_mask: u64,
    signal: SignalInfo,
    action: SignalAction,
) -> (r: Result<SignalFramePlan, SignalFrameError>)
    ensures
        (action.handler == 0 || action.handler == 1 || spec_frame_layout(saved.general.rsp, action)
            is None) ==> r == Err::<SignalFramePlan, SignalFrameError>(
            SignalFrameError::InvalidFrame,
        ),
        r is Ok <==> action.handler != 0 && action.handler != 1 && spec_frame_layout(
            saved.general.rsp,
            action,
        ) is Some,
        r matches Ok(plan) ==> {
            let l = spec_frame_layout(saved.general.rsp, action)->0;
            &&& plan.context == handler_context(*saved, l, signal, action)
            &&& plan.blocked == handler_mask(saved_mask, signal, action)
            &&& plan.writes@.len() == if l.uses_stack_trampoline {
                4int
            } else {
                3int
            }
            &&& plan.writes@[0].address == l.frame_base
            &&& plan.writes@[0].bytes@ == u64_le(l.return_target)
            &&& plan.writes@[1].address == l.ucontext_addr
            &&& plan.writes@[1].bytes@ == ucontext_bytes(spec_build_ucontext(*saved, saved_mask))
            &&& plan.writes@[2].address == l.siginfo_addr
            &&& plan.writes@[2].bytes@ == siginfo_bytes(spec_build_siginfo(signal))
            &&& l.uses_stack_trampoline ==> plan.writes@[3].address == l.trampoline_addr
                && plan.writes@[3].bytes@ == trampoline_bytes()
        },
{
    if action.handler == 0 || action.handler == 1 {
        return Err(SignalFrameError::InvalidFrame);
    }
    let layout = match SignalFrameLayout::new(saved.general.rsp, action) {
        Ok(layout) => layout,
        Err(e) => {
            return Err(e);
        },
    };
    let siginfo = build_siginfo(signal);
    let ucontext = build_ucontext(*saved, saved_mask);
    let siginfo_bytes = serialize_siginfo(&siginfo);
    let ucontext_bytes = serialize_ucontext(&ucontext);
    let mut return_address: Vec<u8> = Vec::with_capacity(8);
    push_u64(&mut return_address, layout.return_target);
    assert(return_address@ =~= u64_le(layout.return_target));

    let mut writes: Vec<UserWrite> = Vec::new();
    writes.push(UserWrite { address: layout.frame_base, bytes: return_address });
    writes.push(UserWrite { address: layout.ucontext_addr, bytes: ucontext_bytes });
    writes.push(UserWrite { address: layout.siginfo_addr, bytes: siginfo_bytes });
    if layout.uses_stack_trampoline {
        writes.push(UserWrite { address: layout.trampoline_addr, bytes: trampoline() });
    }
    let mut context = *saved;
    context.general.rip = action.handler;
    context.general.rsp = layout.frame_base;
    context.general.rdi = signal.signal as u64;
    context.general.rsi = 0;
    context.general.rdx = 0;
    if (action.flags & SA_SIGINFO) != 0 {
        context.general.rsi = layout.siginfo_addr;
        context.general.rdx = layout.ucontext_addr;
    }
    let mut next_mask = saved_mask | action.mask;
    if (action.flags & SA_NODEFER) == 0 {
        next_mask = next_mask | sigbit(signal.signal);
    }
    Ok(SignalFramePlan { writes, context, blocked: next_mask })
}

/// What `rt_sigreturn` restores: the task's context and the blocked mask to restore.
pub struct SignalReturn {
    pub context: UserContext,
    pub mask: u64,
}

/// `rt_sigreturn`, given the bytes read from the user stack pointer: they must form a whole
/// `ucontext_t` (else `Fault`); the saved registers come back over `current` and the first
/// word of the saved mask is the mask to restore.
pub fn restore_signal_from_user(current: &UserContext, bytes: &[u8]) -> (r: Result<
    SignalReturn,
    SysErr,
>)
    ensures
        bytes@.len() != UCONTEXT_SIZE ==> r == Err::<SignalReturn, SysErr>(SysErr::Fault),
        bytes@.len() == UCONTEXT_SIZE ==> (r matches Ok(ret) && ret.context
            == spec_restore_ucontext(*current, ucontext_from_bytes(bytes@).gregs) && ret.mask
            == ucontext_from_bytes(bytes@).sigmask[0]),
{
    let ucontext = match decode_ucontext(bytes) {
        Some(u) => u,
        None => {
            return Err(SysErr::Fault);
        },
    };
    let restored = restore_ucontext(*current, &ucontext);
    Ok(SignalReturn { context: restored, mask: ucontext.sigmask[0] })
}

} // verus!
