//! `/proc/<pid>`: which virtual path names what, and the text of a process's `status`
//! and `comm` files.
use vstd::prelude::*;
use vstd::string::StringSliceAdditionalSpecFns;
use vstd::utf8::{decode_utf8, valid_utf8};

use crate::credentials::Credentials;
use crate::process::{before_nul, nul_position, Pid};
use crate::text::{bytes_equal, decimal, digit_char, digits, push_decimal, push_padded, utf8_string, zero_pad};
use crate::wire::push_bytes;

verus! {

/// The states of a process, as `/proc` tells them apart.
#[derive(Debug, Clone, Copy, PartialEq, Eq, Structural)]
pub enum ProcState {
    Runnable,
    Running,
    Stopped,
    Blocked,
    Exited,
    Faulted,
}

/// The `State:` line of a process state.
pub open spec fn spec_linux_state(state: ProcState) -> &'static str {
    match state {
        ProcState::Running => "R (running)",
        ProcState::Runnable => "R (running)",
        ProcState::Blocked => "S (sleeping)",
        ProcState::Stopped => "T (stopped)",
        ProcState::Exited => "Z (zombie)",
        ProcState::Faulted => "D (disk sleep)",
    }
}

/// The `State:` line of a process state.
pub fn linux_state(state: ProcState) -> (r: &'static str)
    ensures
        r == spec_linux_state(state),
{
    match state {
        ProcState::Running => "R (running)",
        ProcState::Runnable => "R (running)",
        ProcState::Blocked => "S (sleeping)",
        ProcState::Stopped => "T (stopped)",
        ProcState::Exited => "Z (zombie)",
        ProcState::Faulted => "D (disk sleep)",
    }
}

/// The `State:` text names each state by its Linux letter: `R (running)` for a running or
/// runnable task, `S (sleeping)` for a blocked one, `T (stopped)` for a stopped one,
/// `Z (zombie)` for an exited one and `D (disk sleep)` for a faulted one. States of
/// different letters get different texts.
pub proof fn lemma_state_letters(a: ProcState, b: ProcState)
    ensures
        spec_linux_state(ProcState::Running)@ == "R (running)"@,
        spec_linux_state(ProcState::Runnable)@ == "R (running)"@,
        spec_linux_state(ProcState::Blocked)@ == "S (sleeping)"@,
        spec_linux_state(ProcState::Stopped)@ == "T (stopped)"@,
        spec_linux_state(ProcState::Exited)@ == "Z (zombie)"@,
        spec_linux_state(ProcState::Faulted)@ == "D (disk sleep)"@,
        spec_linux_state(ProcState::Running)@[0] == 'R',
        spec_linux_state(ProcState::Runnable)@[0] == 'R',
        spec_linux_state(ProcState::Blocked)@[0] == 'S',
        spec_linux_state(ProcState::Stopped)@[0] == 'T',
        spec_linux_state(ProcState::Exited)@[0] == 'Z',
        spec_linux_state(ProcState::Faulted)@[0] == 'D',
        spec_linux_state(a)@[0] != spec_linux_state(b)@[0] ==> spec_linux_state(a)@ != spec_linux_state(b)@,
{
    reveal_strlit("R (running)");
    reveal_strlit("S (sleeping)");
    reveal_strlit("T (stopped)");
    reveal_strlit("Z (zombie)");
    reveal_strlit("D (disk sleep)");
}

/// The name of a process: its command name up to the NUL, or `unknown` when that is not
/// UTF-8.
pub open spec fn process_name_text(name: Seq<u8>) -> Seq<char> {
    if valid_utf8(before_nul(name)) {
        decode_utf8(before_nul(name))
    } else {
        "unknown"@
    }
}

/// The bytes of a process name; see `process_name_text`.
pub open spec fn process_name_bytes(name: Seq<u8>) -> Seq<u8> {
    if valid_utf8(before_nul(name)) {
        before_nul(name)
    } else {
        "unknown".spec_bytes()
    }
}

/// The name of a process; see `process_name_text`.
pub fn process_name(name: &[u8; 16]) -> (r: String)
    ensures
        r@ == process_name_text(name@),
        vstd::utf8::encode_utf8(r@) == process_name_bytes(name@),
{
    let end = nul_position(name);
    let slice = name.as_slice();
    let mut bytes: Vec<u8> = Vec::new();
    let mut j: usize = 0;
    while j < end
        invariant
            j <= end,
            end <= slice@.len(),
            bytes@ == slice@.take(j as int),
        decreases end - j,
    {
        bytes.push(slice[j]);
        j = j + 1;
        assert(bytes@ =~= slice@.take(j as int));
    }
    assert(bytes@ == before_nul(name@)) by {
        assert(slice@ == name@);
        assert(slice@.subrange(0, end as int) =~= slice@.take(end as int));
    }
    match utf8_string(bytes.as_slice()) {
        Some(s) => {
            proof {
                vstd::utf8::decode_utf8_encode_utf8(bytes@);
            }
            s
        },
        None => "unknown".to_owned(),
    }
}

/// What `/proc/<pid>/status` reads from a process.
pub struct ProcStatusSnapshot {
    pub pid: Pid,
    pub parent: Option<Pid>,
    pub state: ProcState,
    pub name: [u8; 16],
    pub credentials: Credentials,
    pub umask: u16,
}

/// The supplementary groups, in decimal, separated by spaces.
pub open spec fn groups_text(groups: Seq<u32>) -> Seq<u8>
    decreases groups.len(),
{
    if groups.len() == 0 {
        Seq::empty()
    } else if groups.len() == 1 {
        decimal(groups[0] as nat)
    } else {
        groups_text(groups.drop_last()) + " ".spec_bytes() + decimal(groups.last() as nat)
    }
}

/// Four IDs separated by tabs.
pub open spec fn id_row(a: u32, b: u32, c: u32, d: u32) -> Seq<u8> {
    decimal(a as nat) + "\t".spec_bytes() + decimal(b as nat) + "\t".spec_bytes() + decimal(
        c as nat,
    ) + "\t".spec_bytes() + decimal(d as nat)
}

/// The text of `/proc/<pid>/status`: name, state, thread group and process IDs (both the
/// PID), parent (0 for none), user and group IDs, supplementary groups and the umask in
/// four octal digits.
pub open spec fn status_text(s: ProcStatusSnapshot) -> Seq<u8> {
    let c = s.credentials;
    "Name:\t".spec_bytes() + process_name_bytes(s.name@) + "\nState:\t".spec_bytes()
        + spec_linux_state(s.state).spec_bytes() + "\nTgid:\t".spec_bytes() + decimal(
        s.pid as nat,
    ) + "\nPid:\t".spec_bytes() + decimal(s.pid as nat) + "\nPPid:\t".spec_bytes() + decimal(
        match s.parent {
            Some(p) => p as nat,
            None => 0,
        },
    ) + "\nUid:\t".spec_bytes() + id_row(c.uid, c.euid, c.suid, c.fsuid) + "\nGid:\t".spec_bytes()
        + id_row(c.gid, c.egid, c.sgid, c.fsgid) + "\nGroups:\t".spec_bytes() + groups_text(
        c.supplementary_groups@,
    ) + "\nUmask:\t".spec_bytes() + zero_pad(digits(s.umask as nat, 8, false), 4)
        + "\n".spec_bytes()
}

fn push_str(out: &mut Vec<u8>, s: &str)
    ensures
        final(out)@ == old(out)@ + s.spec_bytes(),
{
    push_bytes(out, s.as_bytes());
}

fn push_id_row(out: &mut Vec<u8>, a: u32, b: u32, c: u32, d: u32)
    ensures
        final(out)@ == old(out)@ + id_row(a, b, c, d),
{
    push_decimal(out, a as u64);
    push_str(out, "\t");
    push_decimal(out, b as u64);
    push_str(out, "\t");
    push_decimal(out, c as u64);
    push_str(out, "\t");
    push_decimal(out, d as u64);
    assert(final(out)@ =~= old(out)@ + id_row(a, b, c, d));
}

fn push_groups(out: &mut Vec<u8>, groups: &Vec<u32>)
    ensures
        final(out)@ == old(out)@ + groups_text(groups@),
{
    let ghost start = out@;
    let mut k: usize = 0;
    while k < groups.len()
        invariant
            k <= groups@.len(),
            out@ == start + groups_text(groups@.take(k as int)),
        decreases groups@.len() - k,
    {
        if k > 0 {
            push_str(out, " ");
        }
        push_decimal(out, groups[k] as u64);
        proof {
            let t = groups@.take(k + 1);
            assert(t.drop_last() =~= groups@.take(k as int));
            if k == 0 {
                assert(groups@.take(0) =~= Seq::<u32>::empty());
            }
        }
        k = k + 1;
        assert(out@ =~= start + groups_text(groups@.take(k as int)));
    }
    assert(groups@.take(groups@.len() as int) =~= groups@);
}

/// The text of `/proc/<pid>/status`; see `status_text`.
pub fn render_status(s: &ProcStatusSnapshot) -> (r: Vec<u8>)
    ensures
        r@ == status_text(*s),
{
    let c = &s.credentials;
    let name = process_name(&s.name);
    let mut out: Vec<u8> = Vec::new();
    push_str(&mut out, "Name:\t");
    push_bytes(&mut out, name.as_str().as_bytes());
    push_str(&mut out, "\nState:\t");
    push_str(&mut out, linux_state(s.state));
    push_str(&mut out, "\nTgid:\t");
    push_decimal(&mut out, s.pid as u64);
    push_str(&mut out, "\nPid:\t");
    push_decimal(&mut out, s.pid as u64);
    push_str(&mut out, "\nPPid:\t");
    let ppid: u32 = match s.parent {
        Some(p) => p,
        None => 0,
    };
    push_decimal(&mut out, ppid as u64);
    push_str(&mut out, "\nUid:\t");
    push_id_row(&mut out, c.uid, c.euid, c.suid, c.fsuid);
    push_str(&mut out, "\nGid:\t");
    push_id_row(&mut out, c.gid, c.egid, c.sgid, c.fsgid);
    push_str(&mut out, "\nGroups:\t");
    push_groups(&mut out, &c.supplementary_groups);
    push_str(&mut out, "\nUmask:\t");
    push_padded(&mut out, s.umask as u64, 8, false, 4);
    push_str(&mut out, "\n");
    out
}

/// The text of `/proc/<pid>/comm`: the name and a newline.
pub fn render_comm(name: &[u8; 16]) -> (r: Vec<u8>)
    ensures
        r@ == process_name_bytes(name@) + "\n".spec_bytes(),
{
    let n = process_name(name);
    let mut out: Vec<u8> = Vec::new();
    push_bytes(&mut out, n.as_str().as_bytes());
    push_str(&mut out, "\n");
    out
}

/// Whether `i` is the first position of byte `b` in `s`.
pub open spec fn is_first_index(s: Seq<u8>, b: u8, i: int) -> bool {
    0 <= i < s.len() && s[i] == b && forall|j: int| 0 <= j < i ==> s[j] != b
}

/// `s` split at its first `/`: what comes before, and what comes after if there is one.
pub open spec fn split_first_slash(s: Seq<u8>) -> (Seq<u8>, Option<Seq<u8>>) {
    if exists|i: int| is_first_index(s, 47, i) {
        let i = choose|i: int| is_first_index(s, 47, i);
        (s.take(i), Some(s.skip(i + 1)))
    } else {
        (s, None)
    }
}

/// Whether every byte of `s` is an ASCII digit.
pub open spec fn all_digits(s: Seq<u8>) -> bool {
    forall|i: int| 0 <= i < s.len() ==> 48 <= #[trigger] s[i] <= 57
}

/// The value of a string of decimal digits.
pub open spec fn digits_value(s: Seq<u8>) -> nat
    decreases s.len(),
{
    if s.len() == 0 {
        0
    } else {
        digits_value(s.drop_last()) * 10 + (s.last() - 48) as nat
    }
}

/// A decimal `u32` as Rust parses it: an optional `+`, then one or more digits, within
/// range.
pub open spec fn spec_parse_u32(s: Seq<u8>) -> Option<u32> {
    let d = if s.len() > 0 && s[0] == 43 {
        s.drop_first()
    } else {
        s
    };
    if d.len() > 0 && all_digits(d) && digits_value(d) <= u32::MAX {
        Some(digits_value(d) as u32)
    } else {
        None
    }
}

/// Parses a decimal `u32`; see `spec_parse_u32`.
pub fn parse_u32(s: &[u8]) -> (r: Option<u32>)
    ensures
        r == spec_parse_u32(s@),
{
    let start: usize = if s.len() > 0 && s[0] == 43 {
        1
    } else {
        0
    };
    let ghost d = s@.skip(start as int);
    proof {
        if start == 1 {
            assert(d =~= s@.drop_first());
        } else {
            assert(d =~= s@);
        }
    }
    if start >= s.len() {
        return None;
    }
    let mut value: u64 = 0;
    let mut i: usize = start;
    while i < s.len()
        invariant
            start <= i <= s@.len(),
            d == s@.skip(start as int),
            d == (if s@.len() > 0 && s@[0] == 43 {
                s@.drop_first()
            } else {
                s@
            }),
            d.len() > 0,
            all_digits(s@.subrange(start as int, i as int)),
            value == digits_value(s@.subrange(start as int, i as int)),
            value <= u32::MAX,
        decreases s@.len() - i,
    {
        let c = s[i];
        if c < 48 || c > 57 {
            proof {
                assert(d[i - start] == c);
                assert(!(48 <= d[i - start] <= 57));
                assert(!all_digits(d));
            }
            return None;
        }
        proof {
            let t = s@.subrange(start as int, i + 1);
            assert(t.drop_last() =~= s@.subrange(start as int, i as int));
        }
        let next = value * 10 + (c - 48) as u64;
        if next > u32::MAX as u64 {
            proof {
                let t = s@.subrange(start as int, i + 1);
                assert(digits_value(t) == next);
                lemma_digits_value_prefix(d, (i + 1 - start) as int);
                assert(d.take((i + 1 - start) as int) =~= t);
                assert(!(digits_value(d) <= u32::MAX) || !all_digits(d));
            }
            return None;
        }
        value = next;
        i = i + 1;
    }
    assert(s@.subrange(start as int, s@.len() as int) =~= d);
    Some(value as u32)
}

proof fn lemma_digits_value_prefix(s: Seq<u8>, n: int)
    requires
        0 <= n <= s.len(),
    ensures
        all_digits(s) ==> digits_value(s.take(n)) <= digits_value(s),
    decreases s.len() - n,
{
    if n < s.len() && all_digits(s) {
        lemma_digits_value_prefix(s, n + 1);
        assert(s.take(n + 1).drop_last() =~= s.take(n));
        assert(all_digits(s.take(n + 1)));
    } else if n == s.len() {
        assert(s.take(n) =~= s);
    }
}

/// What a path under `/proc` that the process table answers names.
#[derive(Debug, Clone, Copy, PartialEq, Eq, Structural)]
pub enum ProcPath {
    /// `/proc/self`.
    SelfDir,
    /// `/proc/self/status`.
    SelfStatus,
    /// `/proc/self/comm`.
    SelfComm,
    /// `/proc/<pid>`.
    PidDir(Pid),
    /// `/proc/<pid>/status`.
    PidStatus(Pid),
    /// `/proc/<pid>/comm`.
    PidComm(Pid),
    /// Anything else below `/proc/<pid>`: it does not exist.
    Missing,
}

/// Which process path `path` is: the three `self` paths exactly, else `/proc/`, a PID,
/// and nothing more or `status` or `comm`; `None` when the process table does not answer
/// it.
pub open spec fn spec_parse_proc_path(path: Seq<u8>) -> Option<ProcPath> {
    if path == "/proc/self".spec_bytes() {
        Some(ProcPath::SelfDir)
    } else if path == "/proc/self/status".spec_bytes() {
        Some(ProcPath::SelfStatus)
    } else if path == "/proc/self/comm".spec_bytes() {
        Some(ProcPath::SelfComm)
    } else if !(path.len() >= 6 && path.take(6) == "/proc/".spec_bytes()) {
        None
    } else {
        let (first, rest) = split_first_slash(path.skip(6));
        match spec_parse_u32(first) {
            None => None,
            Some(pid) => match rest {
                None => Some(ProcPath::PidDir(pid)),
                Some(r) => if r == "status".spec_bytes() {
                    Some(ProcPath::PidStatus(pid))
                } else if r == "comm".spec_bytes() {
                    Some(ProcPath::PidComm(pid))
                } else {
                    Some(ProcPath::Missing)
                },
            },
        }
    }
}


fn copy_range(src: &[u8], from: usize, to: usize) -> (r: Vec<u8>)
    requires
        from <= to <= src@.len(),
    ensures
        r@ == src@.subrange(from as int, to as int),
{
    let mut out: Vec<u8> = Vec::new();
    let mut j: usize = from;
    while j < to
        invariant
            from <= j <= to,
            to <= src@.len(),
            out@ == src@.subrange(from as int, j as int),
        decreases to - j,
    {
        out.push(src[j]);
        j = j + 1;
        assert(out@ =~= src@.subrange(from as int, j as int));
    }
    out
}

/// Which process path `path` is; see `spec_parse_proc_path`.
pub fn parse_proc_path(path: &[u8]) -> (r: Option<ProcPath>)
    ensures
        r == spec_parse_proc_path(path@),
{
    if bytes_equal(path, "/proc/self".as_bytes()) {
        return Some(ProcPath::SelfDir);
    }
    if bytes_equal(path, "/proc/self/status".as_bytes()) {
        return Some(ProcPath::SelfStatus);
    }
    if bytes_equal(path, "/proc/self/comm".as_bytes()) {
        return Some(ProcPath::SelfComm);
    }
    if path.len() < 6 {
        return None;
    }
    let prefix = copy_range(path, 0, 6);
    if !bytes_equal(prefix.as_slice(), "/proc/".as_bytes()) {
        assert(path@.take(6) =~= path@.subrange(0, 6));
        return None;
    }
    assert(path@.take(6) =~= path@.subrange(0, 6));
    let ghost r = path@.skip(6);
    let mut i: usize = 6;
    while i < path.len() && path[i] != 47
        invariant
            6 <= i <= path@.len(),
            forall|j: int| 6 <= j < i ==> path@[j] != 47,
        decreases path@.len() - i,
    {
        i = i + 1;
    }
    let first = copy_range(path, 6, i);
    proof {
        if i < path.len() {
            assert(is_first_index(r, 47, i - 6));
            let c = choose|c: int| is_first_index(r, 47, c);
            if c < i - 6 {
                assert(r[c] == path@[c + 6]);
            } else if c > i - 6 {
                assert(r[i - 6] == path@[i as int]);
            }
            assert(first@ =~= r.take(i - 6));
        } else {
            assert forall|c: int| !is_first_index(r, 47, c) by {
                if 0 <= c < r.len() {
                    assert(r[c] == path@[c + 6]);
                }
            }
            assert(first@ =~= r);
        }
    }
    let pid = match parse_u32(first.as_slice()) {
        None => return None,
        Some(p) => p,
    };
    if i >= path.len() {
        return Some(ProcPath::PidDir(pid));
    }
    let rest = copy_range(path, i + 1, path.len());
    proof {
        assert(rest@ =~= r.skip(i - 6 + 1));
    }
    if bytes_equal(rest.as_slice(), "status".as_bytes()) {
        Some(ProcPath::PidStatus(pid))
    } else if bytes_equal(rest.as_slice(), "comm".as_bytes()) {
        Some(ProcPath::PidComm(pid))
    } else {
        Some(ProcPath::Missing)
    }
}

proof fn lemma_decimal_value(n: nat)
    ensures
        decimal(n).len() > 0,
        all_digits(decimal(n)),
        digits_value(decimal(n)) == n,
        decimal(n)[0] != 43,
    decreases n,
{
    if n < 10 {
        assert(decimal(n) == seq![(48 + n) as u8]);
        assert(decimal(n).drop_last() =~= Seq::<u8>::empty());
        assert(digits_value(Seq::<u8>::empty()) == 0);
        assert(digits_value(decimal(n)) == n);
    } else {
        lemma_decimal_value(n / 10);
        let d = digits(n / 10, 10, false);
        assert(decimal(n) == d.push(digit_char(n % 10, false)));
        assert(decimal(n).drop_last() =~= d);
        assert(decimal(n).last() == 48 + n % 10);
        assert(digits_value(decimal(n)) == digits_value(d) * 10 + n % 10);
        assert(digits_value(d) == n / 10);
        assert(n == (n / 10) * 10 + n % 10);
        assert(digits_value(decimal(n)) == n);
        assert forall|i: int| 0 <= i < decimal(n).len() implies 48 <= #[trigger] decimal(n)[i] <= 57 by {
            if i < d.len() {
                assert(decimal(n)[i] == d[i]);
            }
        }
        assert(decimal(n)[0] == d[0]);
    }
}

/// The decimal text of a `u32` parses back to it: a PID rendered under `/proc` names
/// the same process when looked up.
pub proof fn lemma_parse_decimal(n: u32)
    ensures
        spec_parse_u32(decimal(n as nat)) == Some(n),
{
    lemma_decimal_value(n as nat);
}

} // verus!
