//! Numbers and paths as bytes: decimal, octal and hexadecimal digits, zero padding,
//! and the components of a `/`-separated path.
use vstd::prelude::*;

verus! {

/// The digit of value `d` (below 16) in ASCII, upper- or lower-case.
pub open spec fn digit_char(d: nat, upper: bool) -> u8 {
    if d < 10 {
        (48 + d) as u8
    } else if upper {
        (55 + d) as u8
    } else {
        (87 + d) as u8
    }
}

/// The digits of `n` in `base` (2 to 16), most significant first; `0` for zero.
pub open spec fn digits(n: nat, base: nat, upper: bool) -> Seq<u8>
    recommends
        2 <= base <= 16,
    decreases n,
{
    if n < base || base < 2 {
        seq![digit_char(n % 16, upper)]
    } else {
        proof {
            assert(n / base < n) by (nonlinear_arith)
                requires
                    n >= base,
                    base >= 2,
            ;
        }
        digits(n / base, base, upper).push(digit_char(n % base, upper))
    }
}

/// The decimal digits of `n`.
pub open spec fn decimal(n: nat) -> Seq<u8> {
    digits(n, 10, false)
}

/// `s` with `0` bytes in front up to `width` bytes.
pub open spec fn zero_pad(s: Seq<u8>, width: nat) -> Seq<u8> {
    if s.len() < width {
        Seq::new((width - s.len()) as nat, |i: int| 48u8) + s
    } else {
        s
    }
}

fn digit_byte(d: u64, upper: bool) -> (r: u8)
    requires
        d < 16,
    ensures
        r == digit_char(d as nat, upper),
{
    if d < 10 {
        (48 + d) as u8
    } else if upper {
        (55 + d) as u8
    } else {
        (87 + d) as u8
    }
}

/// Appends the digits of `n` in `base`.
pub fn push_digits(out: &mut Vec<u8>, n: u64, base: u64, upper: bool)
    requires
        2 <= base <= 16,
    ensures
        final(out)@ == old(out)@ + digits(n as nat, base as nat, upper),
    decreases n,
{
    if n >= base {
        assert(n / base < n) by (nonlinear_arith)
            requires
                n >= base,
                base >= 2,
        ;
        push_digits(out, n / base, base, upper);
    }
    out.push(digit_byte(n % base, upper));
    proof {
        if n < base {
            assert(n % 16 == n % base) by (nonlinear_arith)
                requires
                    n < base,
                    base <= 16,
            ;
        }
    }
    assert(final(out)@ =~= old(out)@ + digits(n as nat, base as nat, upper));
}

/// Appends the decimal digits of `n`.
pub fn push_decimal(out: &mut Vec<u8>, n: u64)
    ensures
        final(out)@ == old(out)@ + decimal(n as nat),
{
    push_digits(out, n, 10, false);
}

/// Appends the digits of `n` in `base`, with `0` bytes in front up to `width`.
pub fn push_padded(out: &mut Vec<u8>, n: u64, base: u64, upper: bool, width: usize)
    requires
        2 <= base <= 16,
    ensures
        final(out)@ == old(out)@ + zero_pad(digits(n as nat, base as nat, upper), width as nat),
{
    let mut d: Vec<u8> = Vec::new();
    push_digits(&mut d, n, base, upper);
    assert(d@ =~= digits(n as nat, base as nat, upper));
    let ghost start = out@;
    if d.len() < width {
        let fill = width - d.len();
        let mut k: usize = 0;
        while k < fill
            invariant
                k <= fill,
                out@ == start + Seq::new(k as nat, |i: int| 48u8),
            decreases fill - k,
        {
            out.push(48u8);
            k = k + 1;
            assert(out@ =~= start + Seq::new(k as nat, |i: int| 48u8));
        }
    }
    let ghost mid = out@;
    let mut j: usize = 0;
    while j < d.len()
        invariant
            j <= d@.len(),
            out@ == mid + d@.take(j as int),
        decreases d@.len() - j,
    {
        out.push(d[j]);
        j = j + 1;
        assert(out@ =~= mid + d@.take(j as int));
    }
    assert(d@.take(d@.len() as int) =~= d@);
    assert(final(out)@ =~= old(out)@ + zero_pad(d@, width as nat));
}

/// Whether position `i` of `s` starts a component: a byte other than `/` that is first
/// or follows a `/`.
pub open spec fn starts_component(s: Seq<u8>, i: int) -> bool {
    s[i] != 47 && (i == 0 || s[i - 1] == 47)
}

/// How many non-empty components the `/`-separated path `s` has.
pub open spec fn component_count(s: Seq<u8>) -> nat
    decreases s.len(),
{
    if s.len() == 0 {
        0
    } else {
        component_count(s.drop_last()) + if starts_component(s, s.len() - 1) {
            1nat
        } else {
            0nat
        }
    }
}

/// Counts the non-empty components of the `/`-separated path `s`.
pub fn count_components(s: &[u8]) -> (r: usize)
    ensures
        r == component_count(s@),
{
    let mut count: usize = 0;
    let mut i: usize = 0;
    while i < s.len()
        invariant
            i <= s@.len(),
            count == component_count(s@.take(i as int)),
            count <= i,
        decreases s@.len() - i,
    {
        let ghost t = s@.take(i as int + 1);
        assert(t.drop_last() =~= s@.take(i as int));
        if s[i] != 47 && (i == 0 || s[i - 1] == 47) {
            count = count + 1;
        }
        i = i + 1;
    }
    assert(s@.take(s@.len() as int) =~= s@);
    count
}

/// `s` without the `/` bytes it starts with.
pub open spec fn trim_leading_slashes(s: Seq<u8>) -> Seq<u8>
    decreases s.len(),
{
    if s.len() > 0 && s[0] == 47 {
        trim_leading_slashes(s.drop_first())
    } else {
        s
    }
}

/// The position of the first byte of `s` that is not `/` (its length when there is none).
pub fn leading_slashes(s: &[u8]) -> (r: usize)
    ensures
        r <= s@.len(),
        trim_leading_slashes(s@) == s@.skip(r as int),
{
    let mut i: usize = 0;
    assert(s@.skip(0) =~= s@);
    while i < s.len() && s[i] == 47
        invariant
            i <= s@.len(),
            trim_leading_slashes(s@) == trim_leading_slashes(s@.skip(i as int)),
        decreases s@.len() - i,
    {
        assert(s@.skip(i as int).drop_first() =~= s@.skip(i as int + 1));
        i = i + 1;
    }
    i
}

/// Appends the bytes of `src` from position `from` on.
pub fn push_from(out: &mut Vec<u8>, src: &[u8], from: usize)
    requires
        from <= src@.len(),
    ensures
        final(out)@ == old(out)@ + src@.skip(from as int),
{
    let mut j: usize = from;
    while j < src.len()
        invariant
            from <= j <= src@.len(),
            out@ == old(out)@ + src@.subrange(from as int, j as int),
        decreases src@.len() - j,
    {
        out.push(src[j]);
        j = j + 1;
        assert(out@ =~= old(out)@ + src@.subrange(from as int, j as int));
    }
    assert(src@.subrange(from as int, src@.len() as int) =~= src@.skip(from as int));
}

/// `core::str::from_utf8`, made an owned `String`: std documents that it fails exactly
/// when the bytes are not UTF-8, and otherwise gives the text they encode.
#[verifier::external_body]
pub(crate) fn utf8_string(bytes: &[u8]) -> (r: Option<String>)
    ensures
        r is Some <==> vstd::utf8::valid_utf8(bytes@),
        r matches Some(s) ==> s@ == vstd::utf8::decode_utf8(bytes@),
{
    core::str::from_utf8(bytes).ok().map(String::from)
}


/// Whether two byte strings are equal.
pub fn bytes_equal(a: &[u8], b: &[u8]) -> (r: bool)
    ensures
        r == (a@ == b@),
{
    if a.len() != b.len() {
        return false;
    }
    let mut i: usize = 0;
    while i < a.len()
        invariant
            i <= a@.len(),
            a@.len() == b@.len(),
            forall|j: int| 0 <= j < i ==> a@[j] == b@[j],
        decreases a@.len() - i,
    {
        if a[i] != b[i] {
            return false;
        }
        i = i + 1;
    }
    assert(a@ =~= b@);
    true
}

} // verus!
