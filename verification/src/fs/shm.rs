//! System V shared memory: the registry of segments and of what each address space has
//! attached, and the decisions of `shmget`, `shmat`, `shmdt` and `shmctl`.
//!
//! The registry holds, per segment, its metadata and an open file of type `F` that backs
//! the memory; creating that file and mapping it are the caller's part.
use vstd::prelude::*;
use std::collections::HashMap;

use crate::credentials::Credentials;
use crate::errno::SysErr;
use crate::wire::{i32_le, i64_le, push_i32, push_i64, push_u16, push_u32, push_u64, u16_le, u32_le, u64_le};

verus! {

broadcast use vstd::std_specs::hash::group_hash_axioms;

pub const IPC_PRIVATE: i32 = 0;
pub const IPC_CREAT: i32 = 0o1000;
pub const IPC_EXCL: i32 = 0o2000;

pub const IPC_RMID: i32 = 0;
pub const IPC_SET: i32 = 1;
pub const IPC_STAT: i32 = 2;

pub const SHM_RDONLY: i32 = 0o10000;
pub const SHM_RND: i32 = 0o20000;
pub const SHM_REMAP: i32 = 0o40000;
pub const SHM_EXEC: i32 = 0o100000;

pub const MAP_SHARED: u64 = 0x01;
pub const MAP_FIXED: u64 = 0x10;
pub const MAP_FIXED_NOREPLACE: u64 = 0x100000;
pub const PROT_READ: u64 = 0x1;
pub const PROT_WRITE: u64 = 0x2;
pub const PROT_EXEC: u64 = 0x4;

/// The size of a page.
pub const SHM_PAGE_SIZE: u64 = 4096;

/// `size` rounded up to a whole number of pages, `None` when that overflows.
pub open spec fn spec_page_align_up(size: usize) -> Option<usize> {
    if size + 4095 > usize::MAX {
        None
    } else {
        Some((size + 4095 - (size + 4095) % 4096) as usize)
    }
}

/// Rounds `size` up to a whole number of pages; `None` when that overflows.
pub fn page_align_up(size: usize) -> (r: Option<usize>)
    ensures
        r == spec_page_align_up(size),
        r matches Some(a) ==> a % 4096 == 0 && size <= a < size + 4096,
{
    match size.checked_add(4095) {
        Some(s) => {
            let a = s & !4095usize;
            assert(a == s - s % 4096) by (bit_vector)
                requires
                    a == s & !4095usize,
            ;
            Some(a)
        },
        None => None,
    }
}

/// One segment: its metadata and the file that backs it.
pub struct SysvShmSegment<F> {
    pub shmid: i32,
    pub key: i32,
    pub size: usize,
    pub mode: u16,
    pub uid: u32,
    pub gid: u32,
    pub cuid: u32,
    pub cgid: u32,
    pub cpid: i32,
    pub lpid: i32,
    pub atime: i64,
    pub dtime: i64,
    pub ctime: i64,
    pub nattch: u64,
    pub marked_destroy: bool,
    pub file: F,
}

/// Where an address space has a segment attached.
#[derive(Debug, Clone, Copy, PartialEq, Eq, Structural)]
pub struct SysvShmAttachment {
    pub shmid: i32,
    pub address: u64,
    pub size: usize,
}

/// What one address space has attached, and how many processes share it.
pub struct AddressSpaceAttachments {
    pub owners: u32,
    pub attachments: Vec<SysvShmAttachment>,
}

/// The registry of segments and attachments.
pub struct SysvShmRegistry<F> {
    next_shmid: i32,
    segments: Vec<SysvShmSegment<F>>,
    spaces: HashMap<usize, AddressSpaceAttachments>,
}

/// What `shmget` decided: an existing segment, or a new one to create with this ID and
/// page-rounded size.
#[derive(Debug, Clone, Copy, PartialEq, Eq, Structural)]
pub enum ShmGet {
    Existing(i32),
    Create { shmid: i32, size: usize },
}

/// The mapping that `shmat` asks for.
#[derive(Debug, Clone, Copy, PartialEq, Eq, Structural)]
pub struct ShmAttachRequest {
    pub shmid: i32,
    pub address: u64,
    pub length: u64,
    pub prot: u64,
    pub flags: u64,
}

/// Segment IDs strictly increase along the list.
pub open spec fn ids_ascending<F>(segs: Seq<SysvShmSegment<F>>) -> bool {
    forall|i: int, j: int| 0 <= i < j < segs.len() ==> segs[i].shmid < segs[j].shmid
}

/// Whether some segment of the list has `id`.
pub open spec fn has_id<F>(segs: Seq<SysvShmSegment<F>>, id: i32) -> bool {
    exists|i: int| 0 <= i < segs.len() && segs[i].shmid == id
}

/// The position of the segment with `id`.
pub open spec fn index_of_id<F>(segs: Seq<SysvShmSegment<F>>, id: i32) -> int {
    choose|i: int| 0 <= i < segs.len() && segs[i].shmid == id
}

/// The segments of a list, by ID.
pub open spec fn segment_map<F>(segs: Seq<SysvShmSegment<F>>) -> Map<i32, SysvShmSegment<F>> {
    Map::new(|id: i32| has_id(segs, id), |id: i32| segs[index_of_id(segs, id)])
}

/// Every ID of `m` is below `next`, unless `next` has reached `i32::MAX`.
pub open spec fn ids_below<F>(m: Map<i32, SysvShmSegment<F>>, next: i32) -> bool {
    next == i32::MAX || forall|id: i32| #[trigger] m.contains_key(id) ==> id < next
}

/// Every segment that was removed with `IPC_RMID` still has an attachment.
pub open spec fn removed_are_attached<F>(m: Map<i32, SysvShmSegment<F>>) -> bool {
    forall|id: i32| #[trigger] m.contains_key(id) && m[id].marked_destroy ==> m[id].nattch > 0
}

proof fn lemma_index_of_id<F>(segs: Seq<SysvShmSegment<F>>, i: int)
    requires
        ids_ascending(segs),
        0 <= i < segs.len(),
    ensures
        has_id(segs, segs[i].shmid),
        index_of_id(segs, segs[i].shmid) == i,
        segment_map(segs).contains_key(segs[i].shmid),
        segment_map(segs)[segs[i].shmid] == segs[i],
{
    assert(0 <= i < segs.len() && segs[i].shmid == segs[i].shmid);
    let c = index_of_id(segs, segs[i].shmid);
    if c < i {
        assert(segs[c].shmid < segs[i].shmid);
    } else if c > i {
        assert(segs[i].shmid < segs[c].shmid);
    }
}

proof fn lemma_map_update<F>(segs: Seq<SysvShmSegment<F>>, i: int, s: SysvShmSegment<F>)
    requires
        ids_ascending(segs),
        0 <= i < segs.len(),
        s.shmid == segs[i].shmid,
    ensures
        ids_ascending(segs.update(i, s)),
        segment_map(segs.update(i, s)) == segment_map(segs).insert(s.shmid, s),
{
    let u = segs.update(i, s);
    assert(ids_ascending(u)) by {
        assert forall|a: int, b: int| 0 <= a < b < u.len() implies u[a].shmid < u[b].shmid by {
            assert(segs[a].shmid < segs[b].shmid);
        }
    }
    let m = segment_map(segs).insert(s.shmid, s);
    assert forall|id: i32| segment_map(u).contains_key(id) <==> m.contains_key(id) by {
        if segment_map(u).contains_key(id) {
            let j = choose|j: int| 0 <= j < u.len() && u[j].shmid == id;
            assert(segs[j].shmid == id);
        }
        if m.contains_key(id) && id != s.shmid {
            let j = choose|j: int| 0 <= j < segs.len() && segs[j].shmid == id;
            assert(u[j].shmid == id);
        }
        if id == s.shmid {
            assert(u[i].shmid == id);
        }
    }
    assert forall|id: i32| #[trigger] segment_map(u).contains_key(id) implies segment_map(u)[id]
        == m[id] by {
        let j = choose|j: int| 0 <= j < u.len() && u[j].shmid == id;
        lemma_index_of_id(u, j);
        if j != i {
            assert(segs[j] == u[j]);
            lemma_index_of_id(segs, j);
        }
    }
    assert(segment_map(u) =~= m);
}

proof fn lemma_map_remove<F>(segs: Seq<SysvShmSegment<F>>, i: int)
    requires
        ids_ascending(segs),
        0 <= i < segs.len(),
    ensures
        ids_ascending(segs.remove(i)),
        segment_map(segs.remove(i)) == segment_map(segs).remove(segs[i].shmid),
{
    let r = segs.remove(i);
    assert(ids_ascending(r)) by {
        assert forall|a: int, b: int| 0 <= a < b < r.len() implies r[a].shmid < r[b].shmid by {
            let a0 = if a < i { a } else { a + 1 };
            let b0 = if b < i { b } else { b + 1 };
            assert(r[a] == segs[a0]);
            assert(r[b] == segs[b0]);
            assert(segs[a0].shmid < segs[b0].shmid);
        }
    }
    let m = segment_map(segs).remove(segs[i].shmid);
    assert forall|id: i32| segment_map(r).contains_key(id) <==> m.contains_key(id) by {
        if segment_map(r).contains_key(id) {
            let j = choose|j: int| 0 <= j < r.len() && r[j].shmid == id;
            let j0 = if j < i { j } else { j + 1 };
            assert(segs[j0].shmid == id);
            assert(j0 != i);
            if j0 < i {
                assert(segs[j0].shmid < segs[i].shmid);
            } else {
                assert(segs[i].shmid < segs[j0].shmid);
            }
        }
        if m.contains_key(id) {
            let j = choose|j: int| 0 <= j < segs.len() && segs[j].shmid == id;
            assert(j != i);
            let j1 = if j < i { j } else { j - 1 };
            assert(r[j1].shmid == id);
        }
    }
    assert forall|id: i32| #[trigger] segment_map(r).contains_key(id) implies segment_map(r)[id]
        == m[id] by {
        let j = choose|j: int| 0 <= j < r.len() && r[j].shmid == id;
        lemma_index_of_id(r, j);
        let j0 = if j < i { j } else { j + 1 };
        assert(r[j] == segs[j0]);
        lemma_index_of_id(segs, j0);
    }
    assert(segment_map(r) =~= m);
}

proof fn lemma_map_insert<F>(segs: Seq<SysvShmSegment<F>>, p: int, s: SysvShmSegment<F>)
    requires
        ids_ascending(segs),
        0 <= p <= segs.len(),
        forall|j: int| 0 <= j < p ==> segs[j].shmid < s.shmid,
        forall|j: int| p <= j < segs.len() ==> segs[j].shmid > s.shmid,
    ensures
        ids_ascending(segs.insert(p, s)),
        segment_map(segs.insert(p, s)) == segment_map(segs).insert(s.shmid, s),
{
    let u = segs.insert(p, s);
    assert(ids_ascending(u)) by {
        assert forall|a: int, b: int| 0 <= a < b < u.len() implies u[a].shmid < u[b].shmid by {
            if a < p && b < p {
                assert(segs[a].shmid < segs[b].shmid);
            } else if a < p && b == p {
            } else if a < p {
                assert(u[b] == segs[b - 1]);
            } else if a == p {
                assert(u[b] == segs[b - 1]);
            } else {
                assert(u[a] == segs[a - 1]);
                assert(u[b] == segs[b - 1]);
                assert(segs[a - 1].shmid < segs[b - 1].shmid);
            }
        }
    }
    let m = segment_map(segs).insert(s.shmid, s);
    assert forall|id: i32| segment_map(u).contains_key(id) <==> m.contains_key(id) by {
        if segment_map(u).contains_key(id) && id != s.shmid {
            let j = choose|j: int| 0 <= j < u.len() && u[j].shmid == id;
            assert(j != p);
            let j0 = if j < p { j } else { j - 1 };
            assert(segs[j0].shmid == id);
        }
        if m.contains_key(id) && id != s.shmid {
            let j = choose|j: int| 0 <= j < segs.len() && segs[j].shmid == id;
            let j1 = if j < p { j } else { j + 1 };
            assert(u[j1].shmid == id);
        }
        if id == s.shmid {
            assert(u[p].shmid == id);
        }
    }
    assert forall|id: i32| #[trigger] segment_map(u).contains_key(id) implies segment_map(u)[id]
        == m[id] by {
        let j = choose|j: int| 0 <= j < u.len() && u[j].shmid == id;
        lemma_index_of_id(u, j);
        if j != p {
            let j0 = if j < p { j } else { j - 1 };
            assert(u[j] == segs[j0]);
            lemma_index_of_id(segs, j0);
        }
    }
    assert(segment_map(u) =~= m);
}

/// The segment with ID `id` where one of its counts and times change.
pub open spec fn with_attach<F>(s: SysvShmSegment<F>, nattch: u64, atime: i64, lpid: i32) -> SysvShmSegment<F> {
    SysvShmSegment { nattch, atime, lpid, ..s }
}

/// A segment after one detach at `now` by `pid`: one attachment fewer (never below 0).
pub open spec fn detached<F>(s: SysvShmSegment<F>, pid: i32, now: i64) -> SysvShmSegment<F> {
    SysvShmSegment {
        nattch: if s.nattch > 0 { (s.nattch - 1) as u64 } else { 0 },
        dtime: now,
        lpid: pid,
        ..s
    }
}

/// The segments after a segment, changed to `s`, is dropped when it was removed and has
/// nothing attached, else kept.
pub open spec fn kept_or_reaped<F>(m: Map<i32, SysvShmSegment<F>>, s: SysvShmSegment<F>) -> Map<i32, SysvShmSegment<F>> {
    if s.marked_destroy && s.nattch == 0 {
        m.remove(s.shmid)
    } else {
        m.insert(s.shmid, s)
    }
}

/// One more attachment of segment `id`, if it exists.
pub open spec fn attach_one<F>(m: Map<i32, SysvShmSegment<F>>, id: i32) -> Map<i32, SysvShmSegment<F>> {
    if m.contains_key(id) {
        m.insert(id, SysvShmSegment { nattch: sat_add_u64(m[id].nattch, 1), ..m[id] })
    } else {
        m
    }
}

/// One attachment fewer of segment `id`, if it exists, at `now` by `pid`; a removed
/// segment left with nothing attached is dropped.
pub open spec fn detach_one<F>(m: Map<i32, SysvShmSegment<F>>, id: i32, pid: i32, now: i64) -> Map<i32, SysvShmSegment<F>> {
    if m.contains_key(id) {
        kept_or_reaped(m, detached(m[id], pid, now))
    } else {
        m
    }
}

/// The segments after each attachment of `atts`, in order, is attached once more.
pub open spec fn attach_all<F>(m: Map<i32, SysvShmSegment<F>>, atts: Seq<SysvShmAttachment>) -> Map<i32, SysvShmSegment<F>>
    decreases atts.len(),
{
    if atts.len() == 0 {
        m
    } else {
        attach_one(attach_all(m, atts.drop_last()), atts.last().shmid)
    }
}

/// The segments after each attachment of `atts`, in order, is detached.
pub open spec fn detach_all<F>(m: Map<i32, SysvShmSegment<F>>, atts: Seq<SysvShmAttachment>, pid: i32, now: i64) -> Map<i32, SysvShmSegment<F>>
    decreases atts.len(),
{
    if atts.len() == 0 {
        m
    } else {
        detach_one(detach_all(m, atts.drop_last(), pid, now), atts.last().shmid, pid, now)
    }
}

/// `a + b`, saturating.
pub open spec fn sat_add_u64(a: u64, b: u64) -> u64 {
    if a + b > u64::MAX {
        u64::MAX
    } else {
        (a + b) as u64
    }
}

/// `a + b`, saturating.
pub open spec fn sat_add_u32(a: u32, b: u32) -> u32 {
    if a + b > u32::MAX {
        u32::MAX
    } else {
        (a + b) as u32
    }
}

/// `a + b`, saturating.
pub open spec fn sat_add_i32(a: i32, b: i32) -> i32 {
    if a + b > i32::MAX {
        i32::MAX
    } else {
        (a + b) as i32
    }
}

/// How many processes share the address space; 0 when it has no entry.
pub open spec fn owners_of(m: Map<usize, AddressSpaceAttachments>, asid: usize) -> u32 {
    if m.contains_key(asid) {
        m[asid].owners
    } else {
        0
    }
}

/// What the address space has attached; nothing when it has no entry.
pub open spec fn attached(m: Map<usize, AddressSpaceAttachments>, asid: usize) -> Seq<SysvShmAttachment> {
    if m.contains_key(asid) {
        m[asid].attachments@
    } else {
        Seq::empty()
    }
}

/// The entry of `asid` exists, with these owners and attachments.
pub open spec fn space_is(m: Map<usize, AddressSpaceAttachments>, asid: usize, owners: u32, atts: Seq<SysvShmAttachment>) -> bool {
    m.contains_key(asid) && m[asid].owners == owners && m[asid].attachments@ == atts
}

/// A segment that is live (not removed) with `key`.
pub open spec fn live_with_key<F>(m: Map<i32, SysvShmSegment<F>>, key: i32, id: i32) -> bool {
    m.contains_key(id) && m[id].key == key && !m[id].marked_destroy
}

/// The live segment with `key` of least ID.
pub open spec fn first_live_id<F>(m: Map<i32, SysvShmSegment<F>>, key: i32) -> Option<i32> {
    if exists|id: i32| live_with_key(m, key, id) {
        Some(
            choose|id: i32|
                live_with_key(m, key, id) && forall|o: i32| live_with_key(m, key, o) ==> id <= o,
        )
    } else {
        None
    }
}

/// What `shmget` decides for the segments `m`.
pub open spec fn spec_shmget<F>(m: Map<i32, SysvShmSegment<F>>, next_shmid: i32, key: i32, size: usize, shmflg: i32) -> Result<ShmGet, SysErr> {
    if size == 0 {
        Err(SysErr::Inval)
    } else {
        match spec_page_align_up(size) {
            None => Err(SysErr::Inval),
            Some(aligned) => if key != IPC_PRIVATE && first_live_id(m, key) is Some {
                let id = first_live_id(m, key)->0;
                if aligned > m[id].size {
                    Err(SysErr::Inval)
                } else if shmflg & IPC_EXCL != 0 {
                    Err(SysErr::Exists)
                } else {
                    Ok(ShmGet::Existing(id))
                }
            } else if key != IPC_PRIVATE && shmflg & IPC_CREAT == 0 {
                Err(SysErr::NoEnt)
            } else {
                Ok(ShmGet::Create { shmid: next_shmid, size: aligned })
            },
        }
    }
}

/// The address a `shmat` maps at: any address for 0, `shmaddr` rounded down to a page
/// under `SHM_RND`, else `shmaddr` itself.
pub open spec fn attach_address(shmaddr: u64, shmflg: i32) -> u64 {
    if shmaddr == 0 {
        0
    } else if shmflg & SHM_RND != 0 {
        (shmaddr - shmaddr % 4096) as u64
    } else {
        shmaddr
    }
}

/// What `shmat` asks to map, for the segments `m`.
pub open spec fn spec_shmat_request<F>(m: Map<i32, SysvShmSegment<F>>, shmid: i32, shmaddr: u64, shmflg: i32) -> Result<ShmAttachRequest, SysErr> {
    if !m.contains_key(shmid) {
        Err(SysErr::Inval)
    } else if shmaddr != 0 && shmflg & SHM_RND == 0 && shmaddr % 4096 != 0 {
        Err(SysErr::Inval)
    } else {
        let address = attach_address(shmaddr, shmflg);
        let prot_w = if shmflg & SHM_RDONLY == 0 { PROT_READ | PROT_WRITE } else { PROT_READ };
        let prot = if shmflg & SHM_EXEC != 0 { prot_w | PROT_EXEC } else { prot_w };
        let flags = if address != 0 {
            if shmflg & SHM_REMAP != 0 { MAP_SHARED | MAP_FIXED } else { MAP_SHARED | MAP_FIXED_NOREPLACE }
        } else {
            MAP_SHARED
        };
        Ok(ShmAttachRequest { shmid, address, length: m[shmid].size as u64, prot, flags })
    }
}

/// A successful `shmat` maps the segment readable always, writable exactly when
/// `SHM_RDONLY` is not asked for, and executable exactly when `SHM_EXEC` is, wherever it
/// is attached (`shmaddr` zero or not).
pub proof fn lemma_shmat_protection<F>(m: Map<i32, SysvShmSegment<F>>, shmid: i32, shmaddr: u64, shmflg: i32)
    ensures
        spec_shmat_request(m, shmid, shmaddr, shmflg) matches Ok(req) ==> {
            &&& req.prot & PROT_READ != 0
            &&& (req.prot & PROT_WRITE != 0) <==> (shmflg & SHM_RDONLY == 0)
            &&& (req.prot & PROT_EXEC != 0) <==> (shmflg & SHM_EXEC != 0)
            &&& req.prot & !7u64 == 0
        },
{
    if let Ok(req) = spec_shmat_request(m, shmid, shmaddr, shmflg) {
        let ro = shmflg & SHM_RDONLY == 0;
        let ex = shmflg & SHM_EXEC != 0;
        let p = req.prot;
        assert(p & PROT_READ != 0 && ((p & PROT_WRITE != 0) <==> ro) && ((p & PROT_EXEC != 0) <==> ex) && p & !7u64 == 0)
            by (bit_vector)
            requires
                p == (if ex {
                    (if ro { 1u64 | 2u64 } else { 1u64 }) | 4u64
                } else {
                    if ro { 1u64 | 2u64 } else { 1u64 }
                }),
        ;
    }
}

/// The first attachment at `address` in `atts`.
pub open spec fn first_at_address(atts: Seq<SysvShmAttachment>, address: u64) -> Option<int> {
    if exists|k: int| 0 <= k < atts.len() && atts[k].address == address {
        Some(
            choose|k: int|
                0 <= k < atts.len() && atts[k].address == address && forall|j: int|
                    0 <= j < k ==> atts[j].address != address,
        )
    } else {
        None
    }
}

/// Whether `k` is the first position of `a` in `atts`.
pub open spec fn is_first_equal(atts: Seq<SysvShmAttachment>, a: SysvShmAttachment, k: int) -> bool {
    0 <= k < atts.len() && atts[k] == a && !atts.take(k).contains(a)
}

/// The first attachment equal to `a` in `atts`.
pub open spec fn first_equal(atts: Seq<SysvShmAttachment>, a: SysvShmAttachment) -> Option<int> {
    if atts.contains(a) {
        Some(choose|k: int| is_first_equal(atts, a, k))
    } else {
        None
    }
}

/// The `shmid_ds` record of a segment, as `IPC_STAT` reports it.
pub open spec fn shmid_ds_bytes<F>(s: SysvShmSegment<F>) -> Seq<u8> {
    i32_le(s.key) + u32_le(s.uid) + u32_le(s.gid) + u32_le(s.cuid) + u32_le(s.cgid) + u32_le(
        s.mode as u32,
    ) + u16_le(0) + u16_le(0) + u64_le(0) + u64_le(0) + u64_le(s.size as u64) + i64_le(s.atime)
        + i64_le(s.dtime) + i64_le(s.ctime) + i32_le(s.cpid) + i32_le(s.lpid) + u64_le(s.nattch)
        + u64_le(0) + u64_le(0) + seq![0u8, 0u8, 0u8, 0u8]
}

/// A new segment: created now by `pid` with `credentials`, permissions from the low
/// nine bits of `shmflg`, nothing attached.
pub fn build_segment<F>(
    shmid: i32,
    key: i32,
    size: usize,
    shmflg: i32,
    credentials: &Credentials,
    pid: i32,
    now: i64,
    file: F,
) -> (r: SysvShmSegment<F>)
    ensures
        r == (SysvShmSegment {
            shmid,
            key,
            size,
            mode: (shmflg & 0o777) as u16,
            uid: credentials.uid,
            gid: credentials.gid,
            cuid: credentials.uid,
            cgid: credentials.gid,
            cpid: pid,
            lpid: 0,
            atime: 0,
            dtime: 0,
            ctime: now,
            nattch: 0,
            marked_destroy: false,
            file,
        }),
{
    let bits = shmflg & 0o777;
    assert(0 <= bits <= 0o777) by (bit_vector)
        requires
            bits == shmflg & 0o777,
    ;
    SysvShmSegment {
        shmid,
        key,
        size,
        mode: bits as u16,
        uid: credentials.uid,
        gid: credentials.gid,
        cuid: credentials.uid,
        cgid: credentials.gid,
        cpid: pid,
        lpid: 0,
        atime: 0,
        dtime: 0,
        ctime: now,
        nattch: 0,
        marked_destroy: false,
        file,
    }
}

/// A segment of the list that is live with `key`.
pub open spec fn live_at<F>(segs: Seq<SysvShmSegment<F>>, key: i32, i: int) -> bool {
    segs[i].key == key && !segs[i].marked_destroy
}

proof fn lemma_first_live<F>(segs: Seq<SysvShmSegment<F>>, key: i32, i: int)
    requires
        ids_ascending(segs),
        0 <= i < segs.len(),
        live_at(segs, key, i),
        forall|j: int| 0 <= j < i ==> !live_at(segs, key, j),
    ensures
        first_live_id(segment_map(segs), key) == Some(segs[i].shmid),
{
    let m = segment_map(segs);
    lemma_index_of_id(segs, i);
    assert(live_with_key(m, key, segs[i].shmid));
    assert forall|o: i32| live_with_key(m, key, o) implies segs[i].shmid <= o by {
        let j = choose|j: int| 0 <= j < segs.len() && segs[j].shmid == o;
        lemma_index_of_id(segs, j);
        if j < i {
            assert(live_at(segs, key, j));
        } else if j > i {
            assert(segs[i].shmid < segs[j].shmid);
        }
    }
    let c = choose|id: i32|
        live_with_key(m, key, id) && forall|o: i32| live_with_key(m, key, o) ==> id <= o;
    assert(live_with_key(m, key, c) && forall|o: i32| live_with_key(m, key, o) ==> c <= o);
    assert(c <= segs[i].shmid);
}

proof fn lemma_no_live<F>(segs: Seq<SysvShmSegment<F>>, key: i32)
    requires
        ids_ascending(segs),
        forall|j: int| 0 <= j < segs.len() ==> !live_at(segs, key, j),
    ensures
        first_live_id(segment_map(segs), key) is None,
{
    let m = segment_map(segs);
    assert forall|o: i32| !live_with_key(m, key, o) by {
        if m.contains_key(o) {
            let j = choose|j: int| 0 <= j < segs.len() && segs[j].shmid == o;
            lemma_index_of_id(segs, j);
            assert(!live_at(segs, key, j));
        }
    }
}

impl<F> SysvShmRegistry<F> {
    /// The segments, by ID.
    pub closed spec fn segments(&self) -> Map<i32, SysvShmSegment<F>> {
        segment_map(self.segments@)
    }

    /// The attachments of each address space.
    pub closed spec fn spaces(&self) -> Map<usize, AddressSpaceAttachments> {
        self.spaces@
    }

    /// The ID the next new segment gets.
    pub closed spec fn next_shmid(&self) -> i32 {
        self.next_shmid
    }

    /// The invariant: every segment that was removed still has an attachment, and every
    /// segment ID is below the next ID to hand out (once that has reached `i32::MAX`, it
    /// is handed out again and again).
    pub closed spec fn wf(&self) -> bool {
        &&& ids_ascending(self.segments@)
        &&& removed_are_attached(segment_map(self.segments@))
        &&& ids_below(segment_map(self.segments@), self.next_shmid)
    }

    /// No segments, no attachments; IDs start at 1.
    pub fn new() -> (r: Self)
        ensures
            r.wf(),
            r.segments() == Map::<i32, SysvShmSegment<F>>::empty(),
            r.spaces() == Map::<usize, AddressSpaceAttachments>::empty(),
            r.next_shmid() == 1,
    {
        let r = SysvShmRegistry { next_shmid: 1, segments: Vec::new(), spaces: HashMap::new() };
        assert(segment_map(r.segments@) =~= Map::<i32, SysvShmSegment<F>>::empty());
        r
    }

    fn find_index(&self, shmid: i32) -> (r: Option<usize>)
        requires
            ids_ascending(self.segments@),
        ensures
            r matches Some(i) ==> i < self.segments@.len() && self.segments@[i as int].shmid
                == shmid,
            r is None ==> !has_id(self.segments@, shmid),
    {
        let mut i: usize = 0;
        while i < self.segments.len()
            invariant
                i <= self.segments@.len(),
                forall|j: int| 0 <= j < i ==> self.segments@[j].shmid != shmid,
            decreases self.segments@.len() - i,
        {
            if self.segments[i].shmid == shmid {
                return Some(i);
            }
            i = i + 1;
        }
        None
    }

    /// The segment with ID `shmid`, if there is one.
    pub fn segment(&self, shmid: i32) -> (r: Option<&SysvShmSegment<F>>)
        requires
            self.wf(),
        ensures
            r is None <==> !self.segments().contains_key(shmid),
            r matches Some(s) ==> *s == self.segments()[shmid],
    {
        match self.find_index(shmid) {
            Some(i) => {
                proof {
                    lemma_index_of_id(self.segments@, i as int);
                }
                Some(&self.segments[i])
            },
            None => None,
        }
    }

    fn find_first_live(&self, key: i32) -> (r: Option<usize>)
        ensures
            r matches Some(i) ==> i < self.segments@.len() && live_at(self.segments@, key, i as int)
                && forall|j: int| 0 <= j < i ==> !live_at(self.segments@, key, j),
            r is None ==> forall|j: int| 0 <= j < self.segments@.len() ==> !live_at(self.segments@, key, j),
    {
        let mut i: usize = 0;
        while i < self.segments.len()
            invariant
                i <= self.segments@.len(),
                forall|j: int| 0 <= j < i ==> !live_at(self.segments@, key, j),
            decreases self.segments@.len() - i,
        {
            if self.segments[i].key == key && !self.segments[i].marked_destroy {
                return Some(i);
            }
            i = i + 1;
        }
        None
    }

    /// `shmget`: finds the live segment with `key`, or reserves the ID of a new one of
    /// `size` rounded up to pages. Creating it is the caller's part, followed by
    /// `insert_segment`; the ID stays used whether or not that succeeds.
    pub fn shmget(&mut self, key: i32, size: usize, shmflg: i32) -> (r: Result<ShmGet, SysErr>)
        requires
            old(self).wf(),
        ensures
            final(self).wf(),
            r == spec_shmget(old(self).segments(), old(self).next_shmid(), key, size, shmflg),
            final(self).segments() == old(self).segments(),
            final(self).spaces() == old(self).spaces(),
            final(self).next_shmid() == (if r matches Ok(ShmGet::Create { .. }) {
                sat_add_i32(old(self).next_shmid(), 1)
            } else {
                old(self).next_shmid()
            }),
            r matches Ok(ShmGet::Create { shmid, .. }) ==> (shmid != i32::MAX ==> !old(
                self,
            ).segments().contains_key(shmid) && shmid < final(self).next_shmid()),
    {
        if size == 0 {
            return Err(SysErr::Inval);
        }
        let aligned = match page_align_up(size) {
            Some(a) => a,
            None => return Err(SysErr::Inval),
        };
        if key != IPC_PRIVATE {
            match self.find_first_live(key) {
                Some(i) => {
                    proof {
                        lemma_first_live(self.segments@, key, i as int);
                        lemma_index_of_id(self.segments@, i as int);
                    }
                    if aligned > self.segments[i].size {
                        return Err(SysErr::Inval);
                    }
                    if (shmflg & IPC_EXCL) != 0 {
                        return Err(SysErr::Exists);
                    }
                    return Ok(ShmGet::Existing(self.segments[i].shmid));
                },
                None => {
                    proof {
                        lemma_no_live(self.segments@, key);
                    }
                },
            }
            if (shmflg & IPC_CREAT) == 0 {
                return Err(SysErr::NoEnt);
            }
        }
        let shmid = self.next_shmid;
        self.next_shmid = match self.next_shmid.checked_add(1) {
            Some(n) => n,
            None => i32::MAX,
        };
        Ok(ShmGet::Create { shmid, size: aligned })
    }

    /// Adds a segment, in place of any with the same ID. Its ID is one `shmget` handed out:
    /// below the next ID, unless that has reached `i32::MAX`.
    pub fn insert_segment(&mut self, segment: SysvShmSegment<F>)
        requires
            old(self).wf(),
            segment.marked_destroy ==> segment.nattch > 0,
            segment.shmid < old(self).next_shmid() || old(self).next_shmid() == i32::MAX,
        ensures
            final(self).wf(),
            final(self).segments() == old(self).segments().insert(segment.shmid, segment),
            final(self).spaces() == old(self).spaces(),
            final(self).next_shmid() == old(self).next_shmid(),
    {
        let ghost id = segment.shmid;
        let mut p: usize = 0;
        while p < self.segments.len() && self.segments[p].shmid < segment.shmid
            invariant
                p <= self.segments@.len(),
                forall|j: int| 0 <= j < p ==> self.segments@[j].shmid < segment.shmid,
            decreases self.segments@.len() - p,
        {
            p = p + 1;
        }
        proof {
            assert forall|j: int| p <= j < self.segments@.len() implies self.segments@[j].shmid
                >= segment.shmid by {
                if j > p {
                    assert(self.segments@[p as int].shmid < self.segments@[j].shmid);
                }
            }
        }
        if p < self.segments.len() && self.segments[p].shmid == segment.shmid {
            let ghost before = self.segments@;
            proof {
                lemma_map_update(before, p as int, segment);
            }
            self.segments.set(p, segment);
        } else {
            let ghost before = self.segments@;
            proof {
                lemma_map_insert(before, p as int, segment);
            }
            self.segments.insert(p, segment);
        }
        proof {
            let m = segment_map(self.segments@);
            assert forall|k: i32| #[trigger] m.contains_key(k) && m[k].marked_destroy implies m[k].nattch
                > 0 by {
                if k != id {
                    assert(old(self).segments().contains_key(k));
                }
            }
        }
    }

    fn take_space(&mut self, asid: usize) -> (r: AddressSpaceAttachments)
        ensures
            final(self).spaces() == old(self).spaces().remove(asid),
            r.owners == owners_of(old(self).spaces(), asid),
            r.attachments@ == attached(old(self).spaces(), asid),
            old(self).spaces().contains_key(asid) ==> r == old(self).spaces()[asid],
            final(self).segments@ == old(self).segments@,
            final(self).next_shmid == old(self).next_shmid,
    {
        match self.spaces.remove(&asid) {
            Some(e) => e,
            None => AddressSpaceAttachments { owners: 0, attachments: Vec::new() },
        }
    }

    fn put_space(&mut self, asid: usize, entry: AddressSpaceAttachments)
        ensures
            final(self).spaces() == old(self).spaces().insert(asid, entry),
            final(self).segments@ == old(self).segments@,
            final(self).next_shmid == old(self).next_shmid,
    {
        self.spaces.insert(asid, entry);
    }

    /// Counts one more process on the address space `asid`.
    pub fn register_process(&mut self, asid: usize)
        requires
            old(self).wf(),
        ensures
            final(self).wf(),
            space_is(
                final(self).spaces(),
                asid,
                sat_add_u32(owners_of(old(self).spaces(), asid), 1),
                attached(old(self).spaces(), asid),
            ),
            final(self).spaces().remove(asid) == old(self).spaces().remove(asid),
            final(self).segments() == old(self).segments(),
            final(self).next_shmid() == old(self).next_shmid(),
    {
        let mut entry = self.take_space(asid);
        entry.owners = entry.owners.saturating_add(1);
        if entry.owners == 0 {
            entry.owners = 1;
        }
        self.put_space(asid, entry);
        assert(self.spaces().remove(asid) =~= old(self).spaces().remove(asid));
    }

    fn copy_attachments(&self, asid: usize) -> (r: Vec<SysvShmAttachment>)
        ensures
            r@ == attached(self.spaces(), asid),
    {
        let mut out: Vec<SysvShmAttachment> = Vec::new();
        match self.spaces.get(&asid) {
            None => {},
            Some(entry) => {
                let mut i: usize = 0;
                while i < entry.attachments.len()
                    invariant
                        i <= entry.attachments@.len(),
                        out@ == entry.attachments@.take(i as int),
                    decreases entry.attachments@.len() - i,
                {
                    out.push(entry.attachments[i]);
                    i = i + 1;
                    assert(out@ =~= entry.attachments@.take(i as int));
                }
                assert(entry.attachments@.take(entry.attachments@.len() as int)
                    =~= entry.attachments@);
            },
        }
        out
    }

    fn attach_segment(&mut self, shmid: i32)
        requires
            old(self).wf(),
        ensures
            final(self).wf(),
            final(self).segments() == attach_one(old(self).segments(), shmid),
            final(self).spaces() == old(self).spaces(),
            final(self).next_shmid() == old(self).next_shmid(),
    {
        match self.find_index(shmid) {
            None => {},
            Some(i) => {
                let ghost before = self.segments@;
                let mut seg = self.segments.remove(i);
                seg.nattch = seg.nattch.saturating_add(1);
                self.segments.insert(i, seg);
                proof {
                    assert(self.segments@ =~= before.update(i as int, seg));
                    lemma_index_of_id(before, i as int);
                    lemma_map_update(before, i as int, seg);
                    let m = segment_map(self.segments@);
                    assert forall|k: i32| #[trigger] m.contains_key(k) && m[k].marked_destroy implies m[k].nattch
                        > 0 by {
                        if k != shmid {
                            assert(segment_map(before).contains_key(k));
                        }
                    }
                }
            },
        }
    }

    fn detach_segment(&mut self, shmid: i32, pid: i32, now: i64)
        requires
            old(self).wf(),
        ensures
            final(self).wf(),
            final(self).segments() == detach_one(old(self).segments(), shmid, pid, now),
            final(self).spaces() == old(self).spaces(),
            final(self).next_shmid() == old(self).next_shmid(),
    {
        match self.find_index(shmid) {
            None => {},
            Some(i) => {
                let ghost before = self.segments@;
                proof {
                    lemma_index_of_id(before, i as int);
                }
                let mut seg = self.segments.remove(i);
                if seg.nattch > 0 {
                    seg.nattch = seg.nattch - 1;
                }
                seg.dtime = now;
                seg.lpid = pid;
                if seg.marked_destroy && seg.nattch == 0 {
                    proof {
                        lemma_map_remove(before, i as int);
                        let m = segment_map(self.segments@);
                        assert forall|k: i32| #[trigger] m.contains_key(k) && m[k].marked_destroy implies m[k].nattch
                            > 0 by {
                            assert(segment_map(before).contains_key(k));
                        }
                    }
                } else {
                    self.segments.insert(i, seg);
                    proof {
                        assert(self.segments@ =~= before.update(i as int, seg));
                        lemma_map_update(before, i as int, seg);
                        let m = segment_map(self.segments@);
                        assert forall|k: i32| #[trigger] m.contains_key(k) && m[k].marked_destroy implies m[k].nattch
                            > 0 by {
                            if k != shmid {
                                assert(segment_map(before).contains_key(k));
                            }
                        }
                    }
                }
            },
        }
    }

    /// A process of `parent` cloned into `child`: with a shared address space, one more
    /// owner of `parent`; else `child` gets a copy of the attachments of `parent` and each
    /// attached segment counts one more attachment.
    pub fn clone_process(&mut self, parent: usize, child: usize, shared_vm: bool)
        requires
            old(self).wf(),
        ensures
            final(self).wf(),
            final(self).next_shmid() == old(self).next_shmid(),
            shared_vm ==> {
                &&& space_is(
                    final(self).spaces(),
                    parent,
                    sat_add_u32(owners_of(old(self).spaces(), parent), 1),
                    attached(old(self).spaces(), parent),
                )
                &&& final(self).spaces().remove(parent) == old(self).spaces().remove(parent)
                &&& final(self).segments() == old(self).segments()
            },
            !shared_vm ==> {
                &&& space_is(final(self).spaces(), child, 1, attached(old(self).spaces(), parent))
                &&& final(self).spaces().remove(child) == old(self).spaces().remove(child)
                &&& final(self).segments() == attach_all(
                    old(self).segments(),
                    attached(old(self).spaces(), parent),
                )
            },
    {
        if shared_vm {
            self.register_process(parent);
            return;
        }
        let atts = self.copy_attachments(parent);
        let mut k: usize = 0;
        while k < atts.len()
            invariant
                self.wf(),
                k <= atts@.len(),
                atts@ == attached(old(self).spaces(), parent),
                self.spaces() == old(self).spaces(),
                self.next_shmid() == old(self).next_shmid(),
                self.segments() == attach_all(old(self).segments(), atts@.take(k as int)),
            decreases atts@.len() - k,
        {
            let shmid = atts[k].shmid;
            self.attach_segment(shmid);
            proof {
                assert(atts@.take(k + 1).drop_last() =~= atts@.take(k as int));
            }
            k = k + 1;
        }
        assert(atts@.take(atts@.len() as int) =~= atts@);
        let _ = self.take_space(child);
        self.put_space(child, AddressSpaceAttachments { owners: 1, attachments: atts });
        assert(self.spaces().remove(child) =~= old(self).spaces().remove(child));
    }

    /// A process of the address space `asid` is gone: with other owners left, one owner
    /// fewer; else the entry goes and each of its attachments is detached at `now` by
    /// `pid`.
    pub fn unregister_process(&mut self, asid: usize, pid: i32, now: i64)
        requires
            old(self).wf(),
        ensures
            final(self).wf(),
            final(self).next_shmid() == old(self).next_shmid(),
            !old(self).spaces().contains_key(asid) ==> final(self).spaces() == old(self).spaces()
                && final(self).segments() == old(self).segments(),
            old(self).spaces().contains_key(asid) && owners_of(old(self).spaces(), asid) > 1 ==> {
                &&& space_is(
                    final(self).spaces(),
                    asid,
                    (owners_of(old(self).spaces(), asid) - 1) as u32,
                    attached(old(self).spaces(), asid),
                )
                &&& final(self).spaces().remove(asid) == old(self).spaces().remove(asid)
                &&& final(self).segments() == old(self).segments()
            },
            old(self).spaces().contains_key(asid) && owners_of(old(self).spaces(), asid) <= 1 ==> {
                &&& final(self).spaces() == old(self).spaces().remove(asid)
                &&& final(self).segments() == detach_all(
                    old(self).segments(),
                    attached(old(self).spaces(), asid),
                    pid,
                    now,
                )
            },
    {
        let present = self.spaces.contains_key(&asid);
        if !present {
            return;
        }
        let mut entry = self.take_space(asid);
        if entry.owners > 1 {
            entry.owners = entry.owners - 1;
            self.put_space(asid, entry);
            assert(self.spaces().remove(asid) =~= old(self).spaces().remove(asid));
            return;
        }
        let atts = entry.attachments;
        let mut k: usize = 0;
        while k < atts.len()
            invariant
                self.wf(),
                k <= atts@.len(),
                atts@ == attached(old(self).spaces(), asid),
                self.spaces() == old(self).spaces().remove(asid),
                self.next_shmid() == old(self).next_shmid(),
                self.segments() == detach_all(old(self).segments(), atts@.take(k as int), pid, now),
            decreases atts@.len() - k,
        {
            let shmid = atts[k].shmid;
            self.detach_segment(shmid, pid, now);
            proof {
                assert(atts@.take(k + 1).drop_last() =~= atts@.take(k as int));
            }
            k = k + 1;
        }
        assert(atts@.take(atts@.len() as int) =~= atts@);
    }

    /// A process moves from the address space `old_asid` to `new_asid` (after `execve`):
    /// `new_asid` gains an owner (`register_process`), then `old_asid` loses one
    /// (`unregister_process`, detaching at `now` by `pid` when it was the last).
    pub fn replace_process(&mut self, old_asid: usize, new_asid: usize, pid: i32, now: i64)
        requires
            old(self).wf(),
        ensures
            final(self).wf(),
            final(self).next_shmid() == old(self).next_shmid(),
            old_asid != new_asid ==> {
                &&& space_is(
                    final(self).spaces(),
                    new_asid,
                    sat_add_u32(owners_of(old(self).spaces(), new_asid), 1),
                    attached(old(self).spaces(), new_asid),
                )
                &&& final(self).spaces().remove(new_asid).remove(old_asid) == old(self).spaces().remove(
                    new_asid,
                ).remove(old_asid)
                &&& !old(self).spaces().contains_key(old_asid) ==> !final(self).spaces().contains_key(old_asid)
                    && final(self).segments() == old(self).segments()
                &&& old(self).spaces().contains_key(old_asid) && owners_of(old(self).spaces(), old_asid) > 1
                    ==> space_is(
                    final(self).spaces(),
                    old_asid,
                    (owners_of(old(self).spaces(), old_asid) - 1) as u32,
                    attached(old(self).spaces(), old_asid),
                ) && final(self).segments() == old(self).segments()
                &&& old(self).spaces().contains_key(old_asid) && owners_of(old(self).spaces(), old_asid) <= 1
                    ==> !final(self).spaces().contains_key(old_asid) && final(self).segments() == detach_all(
                    old(self).segments(),
                    attached(old(self).spaces(), old_asid),
                    pid,
                    now,
                )
            },
            old_asid == new_asid ==> {
                let owners = sat_add_u32(owners_of(old(self).spaces(), old_asid), 1);
                &&& final(self).spaces().remove(old_asid) == old(self).spaces().remove(old_asid)
                &&& owners > 1 ==> space_is(
                    final(self).spaces(),
                    old_asid,
                    (owners - 1) as u32,
                    attached(old(self).spaces(), old_asid),
                ) && final(self).segments() == old(self).segments()
                &&& owners <= 1 ==> !final(self).spaces().contains_key(old_asid) && final(self).segments()
                    == detach_all(old(self).segments(), attached(old(self).spaces(), old_asid), pid, now)
            },
    {
        self.register_process(new_asid);
        let ghost mid = self.spaces();
        self.unregister_process(old_asid, pid, now);
        proof {
            if old_asid != new_asid {
                let o = old(self).spaces();
                assert(mid.remove(new_asid).contains_key(old_asid) == mid.contains_key(old_asid));
                assert(o.remove(new_asid).contains_key(old_asid) == o.contains_key(old_asid));
                if o.contains_key(old_asid) {
                    assert(mid.remove(new_asid)[old_asid] == mid[old_asid]);
                    assert(o.remove(new_asid)[old_asid] == o[old_asid]);
                }
                let f = self.spaces();
                assert(f.remove(old_asid) =~= mid.remove(old_asid)) by {
                    if mid.contains_key(old_asid) && owners_of(mid, old_asid) <= 1 {
                        assert(f.remove(old_asid) =~= mid.remove(old_asid).remove(old_asid));
                    }
                }
                assert(f.remove(new_asid).remove(old_asid) =~= f.remove(old_asid).remove(new_asid));
                assert(mid.remove(old_asid).remove(new_asid) =~= mid.remove(new_asid).remove(old_asid));
                assert(f.remove(old_asid).contains_key(new_asid));
                assert(f.remove(old_asid)[new_asid] == mid[new_asid]);
            } else {
                assert(final(self).spaces().remove(old_asid) =~= old(self).spaces().remove(old_asid));
            }
        }
    }

    /// What `shmat` maps for segment `shmid` at `shmaddr` with `shmflg`: `Inval` when there
    /// is no such segment or `shmaddr` is not page aligned without `SHM_RND`. Mapping the
    /// segment's file is the caller's part, followed by `record_attach`.
    pub fn shmat_request(&self, shmid: i32, shmaddr: u64, shmflg: i32) -> (r: Result<ShmAttachRequest, SysErr>)
        requires
            self.wf(),
        ensures
            r == spec_shmat_request(self.segments(), shmid, shmaddr, shmflg),
            r matches Ok(req) ==> req.prot & PROT_READ != 0 && ((req.prot & PROT_WRITE != 0) <==> (shmflg
                & SHM_RDONLY == 0)),
    {
        proof {
            lemma_shmat_protection(self.segments(), shmid, shmaddr, shmflg);
        }
        let size = match self.find_index(shmid) {
            None => return Err(SysErr::Inval),
            Some(i) => {
                proof {
                    lemma_index_of_id(self.segments@, i as int);
                }
                self.segments[i].size
            },
        };
        let address = if shmaddr == 0 {
            0
        } else if (shmflg & SHM_RND) != 0 {
            let a = shmaddr & !4095u64;
            assert(a == shmaddr - shmaddr % 4096) by (bit_vector)
                requires
                    a == shmaddr & !4095u64,
            ;
            a
        } else if shmaddr % SHM_PAGE_SIZE != 0 {
            return Err(SysErr::Inval);
        } else {
            shmaddr
        };
        let prot_w = if (shmflg & SHM_RDONLY) == 0 {
            PROT_READ | PROT_WRITE
        } else {
            PROT_READ
        };
        let prot = if (shmflg & SHM_EXEC) != 0 {
            prot_w | PROT_EXEC
        } else {
            prot_w
        };
        let flags = if address != 0 {
            if (shmflg & SHM_REMAP) != 0 {
                MAP_SHARED | MAP_FIXED
            } else {
                MAP_SHARED | MAP_FIXED_NOREPLACE
            }
        } else {
            MAP_SHARED
        };
        Ok(ShmAttachRequest { shmid, address, length: size as u64, prot, flags })
    }

    /// Records that segment `shmid` of `size` bytes is mapped at `mapped` in `asid`, at
    /// `now` by `pid`: one more attachment, and the attachment joins the address space
    /// (which counts one owner if it had none). `Inval` when the segment is gone.
    pub fn record_attach(
        &mut self,
        asid: usize,
        shmid: i32,
        mapped: u64,
        size: usize,
        pid: i32,
        now: i64,
    ) -> (r: Result<u64, SysErr>)
        requires
            old(self).wf(),
        ensures
            final(self).wf(),
            final(self).next_shmid() == old(self).next_shmid(),
            !old(self).segments().contains_key(shmid) ==> r == Err::<u64, SysErr>(SysErr::Inval)
                && final(self).segments() == old(self).segments() && final(self).spaces() == old(
                self,
            ).spaces(),
            old(self).segments().contains_key(shmid) ==> {
                &&& r == Ok::<u64, SysErr>(mapped)
                &&& final(self).segments() == old(self).segments().insert(
                    shmid,
                    with_attach(
                        old(self).segments()[shmid],
                        sat_add_u64(old(self).segments()[shmid].nattch, 1),
                        now,
                        pid,
                    ),
                )
                &&& space_is(
                    final(self).spaces(),
                    asid,
                    if owners_of(old(self).spaces(), asid) == 0 {
                        1
                    } else {
                        owners_of(old(self).spaces(), asid)
                    },
                    attached(old(self).spaces(), asid).push(
                        SysvShmAttachment { shmid, address: mapped, size },
                    ),
                )
                &&& final(self).spaces().remove(asid) == old(self).spaces().remove(asid)
            },
    {
        let i = match self.find_index(shmid) {
            None => return Err(SysErr::Inval),
            Some(i) => i,
        };
        let ghost before = self.segments@;
        proof {
            lemma_index_of_id(before, i as int);
        }
        let mut seg = self.segments.remove(i);
        seg.nattch = seg.nattch.saturating_add(1);
        seg.atime = now;
        seg.lpid = pid;
        self.segments.insert(i, seg);
        proof {
            assert(self.segments@ =~= before.update(i as int, seg));
            lemma_map_update(before, i as int, seg);
            let m = segment_map(self.segments@);
            assert forall|k: i32| #[trigger] m.contains_key(k) && m[k].marked_destroy implies m[k].nattch
                > 0 by {
                if k != shmid {
                    assert(segment_map(before).contains_key(k));
                }
            }
        }
        let mut entry = self.take_space(asid);
        if entry.owners == 0 {
            entry.owners = 1;
        }
        entry.attachments.push(SysvShmAttachment { shmid, address: mapped, size });
        self.put_space(asid, entry);
        assert(self.spaces().remove(asid) =~= old(self).spaces().remove(asid));
        Ok(mapped)
    }

    /// The attachment of `asid` at `shmaddr` that `shmdt` undoes: `Inval` for address 0 or
    /// when nothing is attached there. Unmapping it is the caller's part, followed by
    /// `record_detach`.
    pub fn find_attachment(&self, asid: usize, shmaddr: u64) -> (r: Result<SysvShmAttachment, SysErr>)
        ensures
            shmaddr == 0 ==> r == Err::<SysvShmAttachment, SysErr>(SysErr::Inval),
            shmaddr != 0 ==> r == match first_at_address(attached(self.spaces(), asid), shmaddr) {
                Some(k) => Ok(attached(self.spaces(), asid)[k]),
                None => Err(SysErr::Inval),
            },
    {
        if shmaddr == 0 {
            return Err(SysErr::Inval);
        }
        match self.spaces.get(&asid) {
            None => Err(SysErr::Inval),
            Some(entry) => {
                let ghost atts = entry.attachments@;
                assert(atts == attached(self.spaces(), asid));
                let mut k: usize = 0;
                while k < entry.attachments.len()
                    invariant
                        k <= atts.len(),
                        atts == entry.attachments@,
                        atts == attached(self.spaces(), asid),
                        shmaddr != 0,
                        forall|j: int| 0 <= j < k ==> atts[j].address != shmaddr,
                    decreases atts.len() - k,
                {
                    if entry.attachments[k] .address == shmaddr {
                        proof {
                            assert(0 <= k < atts.len() && atts[k as int].address == shmaddr);
                            assert(forall|j: int| 0 <= j < k ==> atts[j].address != shmaddr);
                            let c = choose|c: int|
                                0 <= c < atts.len() && atts[c].address == shmaddr && forall|j: int|
                                    0 <= j < c ==> atts[j].address != shmaddr;
                            if c < k {
                                assert(atts[c].address != shmaddr);
                            } else if c > k {
                                assert(atts[k as int].address != shmaddr);
                            }
                        }
                        return Ok(entry.attachments[k]);
                    }
                    k = k + 1;
                }
                Err(SysErr::Inval)
            },
        }
    }

    fn position_of(v: &Vec<SysvShmAttachment>, a: SysvShmAttachment) -> (r: Option<usize>)
        ensures
            r matches Some(k) ==> k < v@.len() && v@[k as int] == a && !v@.take(k as int).contains(a),
            r is None ==> !v@.contains(a),
    {
        let mut k: usize = 0;
        while k < v.len()
            invariant
                k <= v@.len(),
                forall|j: int| 0 <= j < k ==> v@[j] != a,
            decreases v@.len() - k,
        {
            if v[k] == a {
                assert(!v@.take(k as int).contains(a)) by {
                    assert forall|j: int| 0 <= j < k implies v@.take(k as int)[j] != a by {}
                }
                return Some(k);
            }
            k = k + 1;
        }
        None
    }

    /// Records that `attachment` of `asid` was unmapped at `now` by `pid`: the first entry
    /// equal to it leaves the address space, and its segment counts one attachment fewer
    /// (and is dropped when it was removed and nothing is left attached).
    pub fn record_detach(&mut self, asid: usize, attachment: SysvShmAttachment, pid: i32, now: i64)
        requires
            old(self).wf(),
        ensures
            final(self).wf(),
            final(self).next_shmid() == old(self).next_shmid(),
            final(self).segments() == detach_one(old(self).segments(), attachment.shmid, pid, now),
            first_equal(attached(old(self).spaces(), asid), attachment) matches Some(k) ==> space_is(
                final(self).spaces(),
                asid,
                owners_of(old(self).spaces(), asid),
                attached(old(self).spaces(), asid).remove(k),
            ) && final(self).spaces().remove(asid) == old(self).spaces().remove(asid),
            first_equal(attached(old(self).spaces(), asid), attachment) is None ==> final(self).spaces()
                == old(self).spaces(),
    {
        if self.spaces.contains_key(&asid) {
            let mut entry = self.take_space(asid);
            let ghost atts = entry.attachments@;
            match Self::position_of(&entry.attachments, attachment) {
                Some(k) => {
                    proof {
                        assert(is_first_equal(atts, attachment, k as int));
                        assert(atts.contains(attachment));
                        let c = choose|c: int| is_first_equal(atts, attachment, c);
                        assert(is_first_equal(atts, attachment, c));
                        if c < k {
                            assert(atts.take(k as int)[c] == attachment);
                            assert(atts.take(k as int).contains(attachment));
                        } else if c > k {
                            assert(atts.take(c)[k as int] == attachment);
                            assert(atts.take(c).contains(attachment));
                        }
                        assert(c == k);
                    }
                    entry.attachments.remove(k);
                    self.put_space(asid, entry);
                    assert(self.spaces().remove(asid) =~= old(self).spaces().remove(asid));
                },
                None => {
                    self.put_space(asid, entry);
                    assert(self.spaces() =~= old(self).spaces());
                },
            }
        } else {
            assert(attached(old(self).spaces(), asid) =~= Seq::<SysvShmAttachment>::empty());
        }
        self.detach_segment(attachment.shmid, pid, now);
    }

    /// `shmctl`: `IPC_RMID` removes the segment (it stays while attached), `IPC_STAT`
    /// gives its `shmid_ds` record for the caller to copy out to `buf`; anything else is
    /// `NoSys`. A missing segment is `Inval`, and `IPC_STAT` with a null `buf` is `Fault`.
    pub fn shmctl(&mut self, shmid: i32, cmd: i32, buf: u64, now: i64) -> (r: Result<Option<Vec<u8>>, SysErr>)
        requires
            old(self).wf(),
        ensures
            final(self).wf(),
            final(self).next_shmid() == old(self).next_shmid(),
            final(self).spaces() == old(self).spaces(),
            cmd == IPC_RMID && old(self).segments().contains_key(shmid) ==> (r matches Ok(None)
                && final(self).segments() == kept_or_reaped(
                old(self).segments(),
                SysvShmSegment { marked_destroy: true, ctime: now, ..old(self).segments()[shmid] },
            )),
            !(cmd == IPC_RMID && old(self).segments().contains_key(shmid)) ==> final(self).segments()
                == old(self).segments(),
            cmd == IPC_RMID && !old(self).segments().contains_key(shmid) ==> r == Err::<
                Option<Vec<u8>>,
                SysErr,
            >(SysErr::Inval),
            cmd == IPC_STAT && buf == 0 ==> r == Err::<Option<Vec<u8>>, SysErr>(SysErr::Fault),
            cmd == IPC_STAT && buf != 0 && !old(self).segments().contains_key(shmid) ==> r == Err::<
                Option<Vec<u8>>,
                SysErr,
            >(SysErr::Inval),
            cmd == IPC_STAT && buf != 0 && old(self).segments().contains_key(shmid) ==> (r
                matches Ok(Some(v)) && v@ == shmid_ds_bytes(old(self).segments()[shmid])),
            cmd != IPC_RMID && cmd != IPC_STAT ==> r == Err::<Option<Vec<u8>>, SysErr>(
                SysErr::NoSys,
            ),
    {
        if cmd == IPC_RMID {
            let i = match self.find_index(shmid) {
                None => return Err(SysErr::Inval),
                Some(i) => i,
            };
            let ghost before = self.segments@;
            proof {
                lemma_index_of_id(before, i as int);
            }
            let mut seg = self.segments.remove(i);
            seg.marked_destroy = true;
            seg.ctime = now;
            if seg.nattch == 0 {
                proof {
                    lemma_map_remove(before, i as int);
                    let m = segment_map(self.segments@);
                    assert forall|k: i32| #[trigger] m.contains_key(k) && m[k].marked_destroy implies m[k].nattch
                        > 0 by {
                        assert(segment_map(before).contains_key(k));
                    }
                }
            } else {
                self.segments.insert(i, seg);
                proof {
                    assert(self.segments@ =~= before.update(i as int, seg));
                    lemma_map_update(before, i as int, seg);
                    let m = segment_map(self.segments@);
                    assert forall|k: i32| #[trigger] m.contains_key(k) && m[k].marked_destroy implies m[k].nattch
                        > 0 by {
                        if k != shmid {
                            assert(segment_map(before).contains_key(k));
                        }
                    }
                }
            }
            Ok(None)
        } else if cmd == IPC_STAT {
            if buf == 0 {
                return Err(SysErr::Fault);
            }
            match self.find_index(shmid) {
                None => Err(SysErr::Inval),
                Some(i) => {
                    proof {
                        lemma_index_of_id(self.segments@, i as int);
                    }
                    Ok(Some(shmid_ds_to_bytes(&self.segments[i])))
                },
            }
        } else {
            Err(SysErr::NoSys)
        }
    }
}

/// The `shmid_ds` record of a segment: the permission block (key, owner and creator IDs,
/// mode), then size, times, creator and last PIDs and attachment count, in that layout.
pub fn shmid_ds_to_bytes<F>(s: &SysvShmSegment<F>) -> (r: Vec<u8>)
    ensures
        r@ == shmid_ds_bytes(*s),
{
    let mut bytes: Vec<u8> = Vec::new();
    push_i32(&mut bytes, s.key);
    push_u32(&mut bytes, s.uid);
    push_u32(&mut bytes, s.gid);
    push_u32(&mut bytes, s.cuid);
    push_u32(&mut bytes, s.cgid);
    push_u32(&mut bytes, s.mode as u32);
    push_u16(&mut bytes, 0);
    push_u16(&mut bytes, 0);
    push_u64(&mut bytes, 0);
    push_u64(&mut bytes, 0);
    push_u64(&mut bytes, s.size as u64);
    push_i64(&mut bytes, s.atime);
    push_i64(&mut bytes, s.dtime);
    push_i64(&mut bytes, s.ctime);
    push_i32(&mut bytes, s.cpid);
    push_i32(&mut bytes, s.lpid);
    push_u64(&mut bytes, s.nattch);
    push_u64(&mut bytes, 0);
    push_u64(&mut bytes, 0);
    bytes.push(0);
    bytes.push(0);
    bytes.push(0);
    bytes.push(0);
    assert(bytes@ =~= shmid_ds_bytes(*s));
    bytes
}

} // verus!
