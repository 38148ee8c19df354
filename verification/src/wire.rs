//! Native byte encoding of the integers that make up Linux x86_64 ABI structures.
//!
//! x86_64 is little-endian, so the native order of every field written to or read from
//! user memory is least significant byte first.
use vstd::prelude::*;

verus! {

/// The eight bytes of `x`, least significant first.
pub open spec fn u64_le(x: u64) -> Seq<u8> {
    seq![
        (x & 0xff) as u8,
        ((x >> 8u64) & 0xff) as u8,
        ((x >> 16u64) & 0xff) as u8,
        ((x >> 24u64) & 0xff) as u8,
        ((x >> 32u64) & 0xff) as u8,
        ((x >> 40u64) & 0xff) as u8,
        ((x >> 48u64) & 0xff) as u8,
        ((x >> 56u64) & 0xff) as u8,
    ]
}

/// The four bytes of `x`, least significant first.
pub open spec fn u32_le(x: u32) -> Seq<u8> {
    seq![
        (x & 0xff) as u8,
        ((x >> 8u32) & 0xff) as u8,
        ((x >> 16u32) & 0xff) as u8,
        ((x >> 24u32) & 0xff) as u8,
    ]
}

/// The two bytes of `x`, least significant first.
pub open spec fn u16_le(x: u16) -> Seq<u8> {
    seq![(x & 0xff) as u8, ((x >> 8u16) & 0xff) as u8]
}

/// The two's-complement bytes of `x`, least significant first.
pub open spec fn i64_le(x: i64) -> Seq<u8> {
    u64_le(x as u64)
}

/// The two's-complement bytes of `x`, least significant first.
pub open spec fn i32_le(x: i32) -> Seq<u8> {
    u32_le(x as u32)
}

/// The value of the eight bytes of `s` starting at `off`, least significant first.
pub open spec fn le_u64_at(s: Seq<u8>, off: int) -> u64 {
    (s[off] as u64) | ((s[off + 1] as u64) << 8u64) | ((s[off + 2] as u64) << 16u64) | ((s[off
        + 3] as u64) << 24u64) | ((s[off + 4] as u64) << 32u64) | ((s[off + 5] as u64) << 40u64)
        | ((s[off + 6] as u64) << 48u64) | ((s[off + 7] as u64) << 56u64)
}

/// The value of the four bytes of `s` starting at `off`, least significant first.
pub open spec fn le_u32_at(s: Seq<u8>, off: int) -> u32 {
    (s[off] as u32) | ((s[off + 1] as u32) << 8u32) | ((s[off + 2] as u32) << 16u32) | ((s[off
        + 3] as u32) << 24u32)
}

/// The value of the two bytes of `s` starting at `off`, least significant first.
pub open spec fn le_u16_at(s: Seq<u8>, off: int) -> u16 {
    (s[off] as u16) | ((s[off + 1] as u16) << 8u16)
}

/// The signed value of the eight bytes of `s` starting at `off`.
pub open spec fn le_i64_at(s: Seq<u8>, off: int) -> i64 {
    le_u64_at(s, off) as i64
}

/// The signed value of the four bytes of `s` starting at `off`.
pub open spec fn le_i32_at(s: Seq<u8>, off: int) -> i32 {
    le_u32_at(s, off) as i32
}

/// Decoding the encoding of a `u64` gives it back.
pub proof fn lemma_u64_roundtrip(x: u64)
    ensures
        u64_le(x).len() == 8,
        #[trigger] le_u64_at(u64_le(x), 0) == x,
{
    let s = u64_le(x);
    let b0 = (x & 0xff) as u8;
    let b1 = ((x >> 8u64) & 0xff) as u8;
    let b2 = ((x >> 16u64) & 0xff) as u8;
    let b3 = ((x >> 24u64) & 0xff) as u8;
    let b4 = ((x >> 32u64) & 0xff) as u8;
    let b5 = ((x >> 40u64) & 0xff) as u8;
    let b6 = ((x >> 48u64) & 0xff) as u8;
    let b7 = ((x >> 56u64) & 0xff) as u8;
    assert(s[0] == b0 && s[1] == b1 && s[2] == b2 && s[3] == b3);
    assert(s[4] == b4 && s[5] == b5 && s[6] == b6 && s[7] == b7);
    assert((b0 as u64) | ((b1 as u64) << 8u64) | ((b2 as u64) << 16u64) | ((b3 as u64) << 24u64)
        | ((b4 as u64) << 32u64) | ((b5 as u64) << 40u64) | ((b6 as u64) << 48u64) | ((b7 as u64)
        << 56u64) == x) by (bit_vector)
        requires
            b0 == (x & 0xff) as u8,
            b1 == ((x >> 8u64) & 0xff) as u8,
            b2 == ((x >> 16u64) & 0xff) as u8,
            b3 == ((x >> 24u64) & 0xff) as u8,
            b4 == ((x >> 32u64) & 0xff) as u8,
            b5 == ((x >> 40u64) & 0xff) as u8,
            b6 == ((x >> 48u64) & 0xff) as u8,
            b7 == ((x >> 56u64) & 0xff) as u8,
    ;
}

/// Decoding the encoding of a `u32` gives it back.
pub proof fn lemma_u32_roundtrip(x: u32)
    ensures
        u32_le(x).len() == 4,
        #[trigger] le_u32_at(u32_le(x), 0) == x,
{
    let s = u32_le(x);
    let b0 = (x & 0xff) as u8;
    let b1 = ((x >> 8u32) & 0xff) as u8;
    let b2 = ((x >> 16u32) & 0xff) as u8;
    let b3 = ((x >> 24u32) & 0xff) as u8;
    assert(s[0] == b0 && s[1] == b1 && s[2] == b2 && s[3] == b3);
    assert((b0 as u32) | ((b1 as u32) << 8u32) | ((b2 as u32) << 16u32) | ((b3 as u32) << 24u32)
        == x) by (bit_vector)
        requires
            b0 == (x & 0xff) as u8,
            b1 == ((x >> 8u32) & 0xff) as u8,
            b2 == ((x >> 16u32) & 0xff) as u8,
            b3 == ((x >> 24u32) & 0xff) as u8,
    ;
}

/// Decoding the encoding of a `u16` gives it back.
pub proof fn lemma_u16_roundtrip(x: u16)
    ensures
        u16_le(x).len() == 2,
        #[trigger] le_u16_at(u16_le(x), 0) == x,
{
    let s = u16_le(x);
    let b0 = (x & 0xff) as u8;
    let b1 = ((x >> 8u16) & 0xff) as u8;
    assert(s[0] == b0 && s[1] == b1);
    assert((b0 as u16) | ((b1 as u16) << 8u16) == x) by (bit_vector)
        requires
            b0 == (x & 0xff) as u8,
            b1 == ((x >> 8u16) & 0xff) as u8,
    ;
}

/// Decoding the encoding of an `i64` gives it back.
pub proof fn lemma_i64_roundtrip(x: i64)
    ensures
        i64_le(x).len() == 8,
        #[trigger] le_i64_at(i64_le(x), 0) == x,
{
    lemma_u64_roundtrip(x as u64);
    assert((x as u64) as i64 == x) by (bit_vector);
}

/// Decoding the encoding of an `i32` gives it back.
pub proof fn lemma_i32_roundtrip(x: i32)
    ensures
        i32_le(x).len() == 4,
        #[trigger] le_i32_at(i32_le(x), 0) == x,
{
    lemma_u32_roundtrip(x as u32);
    assert((x as u32) as i32 == x) by (bit_vector);
}

/// Reading at an offset inside `a + b` where the field lies wholly in `b` reads `b`.
pub proof fn lemma_le_u64_at_concat(a: Seq<u8>, b: Seq<u8>, off: int)
    requires
        0 <= off,
        off + 8 <= b.len(),
    ensures
        le_u64_at(a + b, a.len() + off) == le_u64_at(b, off),
{
    assert((a + b)[a.len() + off] == b[off]);
    assert((a + b)[a.len() + off + 1] == b[off + 1]);
    assert((a + b)[a.len() + off + 2] == b[off + 2]);
    assert((a + b)[a.len() + off + 3] == b[off + 3]);
    assert((a + b)[a.len() + off + 4] == b[off + 4]);
    assert((a + b)[a.len() + off + 5] == b[off + 5]);
    assert((a + b)[a.len() + off + 6] == b[off + 6]);
    assert((a + b)[a.len() + off + 7] == b[off + 7]);
}

/// Reading at an offset inside `a + b` where the field lies wholly in `a` reads `a`.
pub proof fn lemma_le_u64_at_prefix(a: Seq<u8>, b: Seq<u8>, off: int)
    requires
        0 <= off,
        off + 8 <= a.len(),
    ensures
        le_u64_at(a + b, off) == le_u64_at(a, off),
{
}

/// Appends the native encoding of `x`.
pub fn push_u64(bytes: &mut Vec<u8>, x: u64)
    ensures
        final(bytes)@ == old(bytes)@ + u64_le(x),
{
    bytes.push((x & 0xff) as u8);
    bytes.push(((x >> 8u64) & 0xff) as u8);
    bytes.push(((x >> 16u64) & 0xff) as u8);
    bytes.push(((x >> 24u64) & 0xff) as u8);
    bytes.push(((x >> 32u64) & 0xff) as u8);
    bytes.push(((x >> 40u64) & 0xff) as u8);
    bytes.push(((x >> 48u64) & 0xff) as u8);
    bytes.push(((x >> 56u64) & 0xff) as u8);
    assert(bytes@ =~= old(bytes)@ + u64_le(x));
}

/// Appends the native encoding of `x`.
pub fn push_u32(bytes: &mut Vec<u8>, x: u32)
    ensures
        final(bytes)@ == old(bytes)@ + u32_le(x),
{
    bytes.push((x & 0xff) as u8);
    bytes.push(((x >> 8u32) & 0xff) as u8);
    bytes.push(((x >> 16u32) & 0xff) as u8);
    bytes.push(((x >> 24u32) & 0xff) as u8);
    assert(bytes@ =~= old(bytes)@ + u32_le(x));
}

/// Appends the native encoding of `x`.
pub fn push_u16(bytes: &mut Vec<u8>, x: u16)
    ensures
        final(bytes)@ == old(bytes)@ + u16_le(x),
{
    bytes.push((x & 0xff) as u8);
    bytes.push(((x >> 8u16) & 0xff) as u8);
    assert(bytes@ =~= old(bytes)@ + u16_le(x));
}

/// Appends the native two's-complement encoding of `x`.
pub fn push_i64(bytes: &mut Vec<u8>, x: i64)
    ensures
        final(bytes)@ == old(bytes)@ + i64_le(x),
{
    push_u64(bytes, x as u64);
}

/// Appends the native two's-complement encoding of `x`.
pub fn push_i32(bytes: &mut Vec<u8>, x: i32)
    ensures
        final(bytes)@ == old(bytes)@ + i32_le(x),
{
    push_u32(bytes, x as u32);
}

/// Appends all of `src`.
pub fn push_bytes(bytes: &mut Vec<u8>, src: &[u8])
    ensures
        final(bytes)@ == old(bytes)@ + src@,
{
    let mut i: usize = 0;
    while i < src.len()
        invariant
            i <= src@.len(),
            bytes@ == old(bytes)@ + src@.subrange(0, i as int),
        decreases src@.len() - i,
    {
        bytes.push(src[i]);
        i = i + 1;
        assert(bytes@ =~= old(bytes)@ + src@.subrange(0, i as int));
    }
    assert(src@.subrange(0, src@.len() as int) =~= src@);
}

/// The `u64` stored natively at `off`.
pub fn read_u64_at(bytes: &[u8], off: usize) -> (r: u64)
    requires
        off + 8 <= bytes@.len(),
    ensures
        r == le_u64_at(bytes@, off as int),
{
    (bytes[off] as u64) | ((bytes[off + 1] as u64) << 8u64) | ((bytes[off + 2] as u64) << 16u64)
        | ((bytes[off + 3] as u64) << 24u64) | ((bytes[off + 4] as u64) << 32u64) | ((bytes[off
        + 5] as u64) << 40u64) | ((bytes[off + 6] as u64) << 48u64) | ((bytes[off + 7] as u64)
        << 56u64)
}

/// The `u32` stored natively at `off`.
pub fn read_u32_at(bytes: &[u8], off: usize) -> (r: u32)
    requires
        off + 4 <= bytes@.len(),
    ensures
        r == le_u32_at(bytes@, off as int),
{
    (bytes[off] as u32) | ((bytes[off + 1] as u32) << 8u32) | ((bytes[off + 2] as u32) << 16u32)
        | ((bytes[off + 3] as u32) << 24u32)
}

/// The `u16` stored natively at `off`.
pub fn read_u16_at(bytes: &[u8], off: usize) -> (r: u16)
    requires
        off + 2 <= bytes@.len(),
    ensures
        r == le_u16_at(bytes@, off as int),
{
    (bytes[off] as u16) | ((bytes[off + 1] as u16) << 8u16)
}

/// The `i64` stored natively at `off`.
pub fn read_i64_at(bytes: &[u8], off: usize) -> (r: i64)
    requires
        off + 8 <= bytes@.len(),
    ensures
        r == le_i64_at(bytes@, off as int),
{
    read_u64_at(bytes, off) as i64
}

/// The `i32` stored natively at `off`.
pub fn read_i32_at(bytes: &[u8], off: usize) -> (r: i32)
    requires
        off + 4 <= bytes@.len(),
    ensures
        r == le_i32_at(bytes@, off as int),
{
    read_u32_at(bytes, off) as i32
}

} // verus!
