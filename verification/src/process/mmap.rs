//! A process's memory-map bookkeeping: the list of mapped regions that `mmap`, `mprotect`
//! and `munmap` edit, with neighbours that continue each other merged back together.
use vstd::prelude::*;

verus! {

/// What a region maps. A file is named by the identity of its open-file description, so
/// two regions back onto the same file exactly when their identities are equal.
#[derive(Debug, Clone, Copy, PartialEq, Eq, Structural)]
pub enum MmapRegionBacking {
    Anonymous,
    BufferedFile { file: u64, offset: u64 },
    SharedFile { file: u64, offset: u64 },
    DirectFile { file: u64, offset: u64 },
}

/// A mapped range `[start, end)` with its page protection bits, its `mmap` flags and its
/// backing.
#[derive(Debug, Clone, Copy, PartialEq, Eq, Structural)]
pub struct MmapRegion {
    pub start: u64,
    pub end: u64,
    pub page_flags: u64,
    pub mmap_flags: u64,
    pub backing: MmapRegionBacking,
}

/// `a - b`, or 0 below zero.
pub open spec fn sat_sub(a: u64, b: u64) -> u64 {
    if a >= b {
        (a - b) as u64
    } else {
        0
    }
}

/// `a + b`, or `u64::MAX` above it.
pub open spec fn sat_add(a: u64, b: u64) -> u64 {
    if a + b <= u64::MAX {
        (a + b) as u64
    } else {
        u64::MAX
    }
}

/// The backing of the part of a region that starts `delta` bytes into it.
pub open spec fn shifted(backing: MmapRegionBacking, delta: u64) -> MmapRegionBacking {
    match backing {
        MmapRegionBacking::Anonymous => MmapRegionBacking::Anonymous,
        MmapRegionBacking::BufferedFile { file, offset } => MmapRegionBacking::BufferedFile {
            file,
            offset: sat_add(offset, delta),
        },
        MmapRegionBacking::SharedFile { file, offset } => MmapRegionBacking::SharedFile {
            file,
            offset: sat_add(offset, delta),
        },
        MmapRegionBacking::DirectFile { file, offset } => MmapRegionBacking::DirectFile {
            file,
            offset: sat_add(offset, delta),
        },
    }
}

/// Whether `rhs` continues `lhs`: it starts where `lhs` ends, with the same flags, and its
/// backing is the same anonymous memory or the same file at the continuing offset.
pub open spec fn mergeable(lhs: MmapRegion, rhs: MmapRegion) -> bool {
    &&& lhs.end == rhs.start
    &&& lhs.page_flags == rhs.page_flags
    &&& lhs.mmap_flags == rhs.mmap_flags
    &&& match (lhs.backing, rhs.backing) {
        (MmapRegionBacking::Anonymous, MmapRegionBacking::Anonymous) => true,
        (
            MmapRegionBacking::BufferedFile { file: lf, offset: lo },
            MmapRegionBacking::BufferedFile { file: rf, offset: ro },
        ) => lf == rf && sat_sub(ro, lo) == sat_sub(lhs.end, lhs.start),
        (
            MmapRegionBacking::SharedFile { file: lf, offset: lo },
            MmapRegionBacking::SharedFile { file: rf, offset: ro },
        ) => lf == rf && sat_sub(ro, lo) == sat_sub(lhs.end, lhs.start),
        (
            MmapRegionBacking::DirectFile { file: lf, offset: lo },
            MmapRegionBacking::DirectFile { file: rf, offset: ro },
        ) => lf == rf && sat_sub(ro, lo) == sat_sub(lhs.end, lhs.start),
        _ => false,
    }
}

/// `merged` with `region` appended, or with its last region stretched over `region` when
/// `region` continues it.
pub open spec fn merge_step(merged: Seq<MmapRegion>, region: MmapRegion) -> Seq<MmapRegion> {
    if merged.len() > 0 && mergeable(merged.last(), region) {
        merged.drop_last().push(MmapRegion { end: region.end, ..merged.last() })
    } else {
        merged.push(region)
    }
}

/// The regions with each run of continuing neighbours merged into one, left to right.
pub open spec fn coalesced(regions: Seq<MmapRegion>) -> Seq<MmapRegion>
    decreases regions.len(),
{
    if regions.len() == 0 {
        Seq::empty()
    } else {
        merge_step(coalesced(regions.drop_last()), regions.last())
    }
}

/// Whether a region spans all of `[start, end)`.
pub open spec fn spans(region: MmapRegion, start: u64, end: u64) -> bool {
    start >= region.start && end <= region.end
}

/// `i` is the first region that spans `[start, end)`.
pub open spec fn is_first_spanning(regions: Seq<MmapRegion>, start: u64, end: u64, i: int) -> bool {
    &&& 0 <= i < regions.len()
    &&& spans(regions[i], start, end)
    &&& forall|j: int| 0 <= j < i ==> !spans(#[trigger] regions[j], start, end)
}

/// `i` is where a region starting at `key` is inserted: after every region that starts
/// below it, before the first one that does not.
pub open spec fn is_insert_position(regions: Seq<MmapRegion>, key: u64, i: int) -> bool {
    &&& 0 <= i <= regions.len()
    &&& forall|j: int| 0 <= j < i ==> #[trigger] regions[j].start < key
    &&& i < regions.len() ==> regions[i].start >= key
}

/// What `mprotect` makes of one region: the part inside `[start, end)` takes the new
/// protection, the parts on either side keep theirs.
pub open spec fn protect_split(region: MmapRegion, start: u64, end: u64, flags: u64) -> Seq<MmapRegion> {
    if region.end <= start || region.start >= end {
        seq![region]
    } else {
        let lo = if region.start >= start { region.start } else { start };
        let hi = if region.end <= end { region.end } else { end };
        let head = if start > region.start {
            seq![MmapRegion { end: start, ..region }]
        } else {
            Seq::empty()
        };
        let middle = seq![MmapRegion {
            start: lo,
            end: hi,
            page_flags: flags,
            mmap_flags: region.mmap_flags,
            backing: shifted(region.backing, sat_sub(lo, region.start)),
        }];
        let tail = if end < region.end {
            seq![MmapRegion {
                start: end,
                end: region.end,
                page_flags: region.page_flags,
                mmap_flags: region.mmap_flags,
                backing: shifted(region.backing, sat_sub(end, region.start)),
            }]
        } else {
            Seq::empty()
        };
        head + middle + tail
    }
}

/// `protect_split` over every region, in order.
pub open spec fn protect_all(regions: Seq<MmapRegion>, start: u64, end: u64, flags: u64) -> Seq<MmapRegion>
    decreases regions.len(),
{
    if regions.len() == 0 {
        Seq::empty()
    } else {
        protect_all(regions.drop_last(), start, end, flags) + protect_split(
            regions.last(),
            start,
            end,
            flags,
        )
    }
}

/// What `munmap` leaves of one region: the parts outside `[start, end)`.
pub open spec fn unmap_split(region: MmapRegion, start: u64, end: u64) -> Seq<MmapRegion> {
    if end <= region.start || start >= region.end {
        seq![region]
    } else {
        let head = if start > region.start {
            seq![MmapRegion { end: start, ..region }]
        } else {
            Seq::empty()
        };
        let tail = if end < region.end {
            seq![MmapRegion {
                start: end,
                end: region.end,
                page_flags: region.page_flags,
                mmap_flags: region.mmap_flags,
                backing: shifted(region.backing, sat_sub(end, region.start)),
            }]
        } else {
            Seq::empty()
        };
        head + tail
    }
}

/// `unmap_split` over every region, in order.
pub open spec fn unmap_all(regions: Seq<MmapRegion>, start: u64, end: u64) -> Seq<MmapRegion>
    decreases regions.len(),
{
    if regions.len() == 0 {
        Seq::empty()
    } else {
        unmap_all(regions.drop_last(), start, end) + unmap_split(regions.last(), start, end)
    }
}

/// Every region of `regions` has `start <= end`.
pub open spec fn regions_wf(regions: Seq<MmapRegion>) -> bool {
    forall|i: int| 0 <= i < regions.len() ==> #[trigger] regions[i].start <= regions[i].end
}

/// Whether `region` maps the address `address`.
pub open spec fn maps(region: MmapRegion, address: int) -> bool {
    region.start <= address < region.end
}

/// Whether some region of `regions` maps `address`.
pub open spec fn mapped(regions: Seq<MmapRegion>, address: int) -> bool {
    exists|i: int| 0 <= i < regions.len() && maps(#[trigger] regions[i], address)
}

proof fn lemma_mapped_concat(s: Seq<MmapRegion>, t: Seq<MmapRegion>, a: int)
    ensures
        mapped(s + t, a) == (mapped(s, a) || mapped(t, a)),
        regions_wf(s) && regions_wf(t) ==> regions_wf(s + t),
{
    if mapped(s + t, a) {
        let i = choose|i: int| 0 <= i < (s + t).len() && maps(#[trigger] (s + t)[i], a);
        if i < s.len() {
            assert(s[i] == (s + t)[i]);
        } else {
            assert(t[i - s.len()] == (s + t)[i]);
        }
    }
    if mapped(s, a) {
        let i = choose|i: int| 0 <= i < s.len() && maps(#[trigger] s[i], a);
        assert((s + t)[i] == s[i]);
    }
    if mapped(t, a) {
        let i = choose|i: int| 0 <= i < t.len() && maps(#[trigger] t[i], a);
        assert((s + t)[s.len() + i] == t[i]);
    }
    if regions_wf(s) && regions_wf(t) {
        assert forall|i: int| 0 <= i < (s + t).len() implies #[trigger] (s + t)[i].start <= (s
            + t)[i].end by {
            if i < s.len() {
                assert(s[i] == (s + t)[i]);
            } else {
                assert(t[i - s.len()] == (s + t)[i]);
            }
        }
    }
}

proof fn lemma_mapped_one(r: MmapRegion, a: int)
    ensures
        mapped(seq![r], a) == maps(r, a),
{
    if maps(r, a) {
        assert(seq![r][0] == r);
    }
}

proof fn lemma_merge_step(m: Seq<MmapRegion>, r: MmapRegion, a: int)
    requires
        regions_wf(m),
        r.start <= r.end,
    ensures
        regions_wf(merge_step(m, r)),
        mapped(merge_step(m, r), a) == (mapped(m, a) || maps(r, a)),
{
    lemma_mapped_one(r, a);
    if m.len() > 0 && mergeable(m.last(), r) {
        let p = m.last();
        let stretched = MmapRegion { end: r.end, ..p };
        assert(m =~= m.drop_last() + seq![p]);
        assert(m.drop_last().push(stretched) =~= m.drop_last() + seq![stretched]);
        lemma_mapped_concat(m.drop_last(), seq![p], a);
        lemma_mapped_concat(m.drop_last(), seq![stretched], a);
        lemma_mapped_one(p, a);
        lemma_mapped_one(stretched, a);
        assert(p.start <= p.end) by {
            assert(m[m.len() - 1] == p);
        }
        assert(regions_wf(m.drop_last())) by {
            assert forall|i: int| 0 <= i < m.drop_last().len() implies #[trigger] m.drop_last()[i].start
                <= m.drop_last()[i].end by {
                assert(m.drop_last()[i] == m[i]);
            }
        }
        assert(regions_wf(seq![stretched])) by {
            assert forall|i: int| 0 <= i < 1 implies #[trigger] seq![stretched][i].start
                <= seq![stretched][i].end by {
                assert(seq![stretched][i] == stretched);
            }
        }
    } else {
        assert(m.push(r) =~= m + seq![r]);
        lemma_mapped_concat(m, seq![r], a);
        assert(regions_wf(seq![r])) by {
            assert forall|i: int| 0 <= i < 1 implies #[trigger] seq![r][i].start <= seq![r][i].end by {
                assert(seq![r][i] == r);
            }
        }
    }
}

proof fn lemma_coalesced(s: Seq<MmapRegion>, a: int)
    requires
        regions_wf(s),
    ensures
        regions_wf(coalesced(s)),
        mapped(coalesced(s), a) == mapped(s, a),
    decreases s.len(),
{
    if s.len() > 0 {
        let init = s.drop_last();
        assert(regions_wf(init)) by {
            assert forall|i: int| 0 <= i < init.len() implies #[trigger] init[i].start
                <= init[i].end by {
                assert(init[i] == s[i]);
            }
        }
        lemma_coalesced(init, a);
        assert(s[s.len() - 1] == s.last());
        lemma_merge_step(coalesced(init), s.last(), a);
        assert(s =~= init + seq![s.last()]);
        lemma_mapped_concat(init, seq![s.last()], a);
        lemma_mapped_one(s.last(), a);
    }
}

proof fn lemma_wf_one(r: MmapRegion)
    requires
        r.start <= r.end,
    ensures
        regions_wf(seq![r]),
{
    assert forall|i: int| 0 <= i < 1 implies #[trigger] seq![r][i].start <= seq![r][i].end by {
        assert(seq![r][i] == r);
    }
}

proof fn lemma_wf_empty()
    ensures
        regions_wf(Seq::<MmapRegion>::empty()),
{
}

proof fn lemma_unmap_split(r: MmapRegion, start: u64, end: u64, a: int)
    requires
        r.start <= r.end,
    ensures
        regions_wf(unmap_split(r, start, end)),
        mapped(unmap_split(r, start, end), a) == (maps(r, a) && !(start <= a < end)),
{
    lemma_mapped_one(r, a);
    lemma_wf_one(r);
    if !(end <= r.start || start >= r.end) {
        let head_piece = MmapRegion { end: start, ..r };
        let tail_piece = MmapRegion {
            start: end,
            end: r.end,
            page_flags: r.page_flags,
            mmap_flags: r.mmap_flags,
            backing: shifted(r.backing, sat_sub(end, r.start)),
        };
        let head = if start > r.start {
            seq![head_piece]
        } else {
            Seq::empty()
        };
        let tail = if end < r.end {
            seq![tail_piece]
        } else {
            Seq::empty()
        };
        lemma_mapped_concat(head, tail, a);
        lemma_mapped_one(head_piece, a);
        lemma_mapped_one(tail_piece, a);
        if start > r.start {
            lemma_wf_one(head_piece);
        }
        if end < r.end {
            lemma_wf_one(tail_piece);
        }
    }
}

proof fn lemma_unmap_all(s: Seq<MmapRegion>, start: u64, end: u64, a: int)
    requires
        regions_wf(s),
    ensures
        regions_wf(unmap_all(s, start, end)),
        mapped(unmap_all(s, start, end), a) == (mapped(s, a) && !(start <= a < end)),
    decreases s.len(),
{
    if s.len() > 0 {
        let init = s.drop_last();
        assert(regions_wf(init)) by {
            assert forall|i: int| 0 <= i < init.len() implies #[trigger] init[i].start
                <= init[i].end by {
                assert(init[i] == s[i]);
            }
        }
        lemma_unmap_all(init, start, end, a);
        assert(s[s.len() - 1] == s.last());
        lemma_unmap_split(s.last(), start, end, a);
        lemma_mapped_concat(unmap_all(init, start, end), unmap_split(s.last(), start, end), a);
        assert(s =~= init + seq![s.last()]);
        lemma_mapped_concat(init, seq![s.last()], a);
        lemma_mapped_one(s.last(), a);
    }
}

/// After `munmap` of `[start, end)` an address is mapped exactly when it was mapped before
/// and lies outside the range; the regions stay well formed.
pub proof fn lemma_unmap_leaves_rest(regions: Seq<MmapRegion>, start: u64, end: u64, address: int)
    requires
        regions_wf(regions),
    ensures
        regions_wf(coalesced(unmap_all(regions, start, end))),
        mapped(coalesced(unmap_all(regions, start, end)), address) == (mapped(regions, address)
            && !(start <= address < end)),
{
    lemma_unmap_all(regions, start, end, address);
    lemma_coalesced(unmap_all(regions, start, end), address);
}

/// Mapping `region` adds exactly its addresses to what was mapped; the regions stay well
/// formed.
pub proof fn lemma_insert_adds_region(
    regions: Seq<MmapRegion>,
    region: MmapRegion,
    i: int,
    address: int,
)
    requires
        regions_wf(regions),
        region.start <= region.end,
        0 <= i <= regions.len(),
    ensures
        regions_wf(coalesced(regions.insert(i, region))),
        mapped(coalesced(regions.insert(i, region)), address) == (mapped(regions, address) || maps(
            region,
            address,
        )),
{
    let front = regions.take(i);
    let back = regions.skip(i);
    assert(regions =~= front + back);
    assert(regions.insert(i, region) =~= front + seq![region] + back);
    assert(regions_wf(front)) by {
        assert forall|j: int| 0 <= j < front.len() implies #[trigger] front[j].start
            <= front[j].end by {
            assert(front[j] == regions[j]);
        }
    }
    assert(regions_wf(back)) by {
        assert forall|j: int| 0 <= j < back.len() implies #[trigger] back[j].start <= back[j].end by {
            assert(back[j] == regions[j + i]);
        }
    }
    lemma_wf_one(region);
    lemma_mapped_one(region, address);
    lemma_mapped_concat(front, seq![region], address);
    lemma_mapped_concat(front + seq![region], back, address);
    lemma_mapped_concat(front, back, address);
    lemma_coalesced(regions.insert(i, region), address);
}

/// Every region of `regions` that maps an address in `[start, end)` has the protection
/// `flags`.
pub open spec fn protected(regions: Seq<MmapRegion>, start: u64, end: u64, flags: u64) -> bool {
    forall|k: int, a: int|
        0 <= k < regions.len() && #[trigger] maps(regions[k], a) && start <= a < end
            ==> regions[k].page_flags == flags
}

proof fn lemma_protected_concat(s: Seq<MmapRegion>, t: Seq<MmapRegion>, start: u64, end: u64, flags: u64)
    requires
        protected(s, start, end, flags),
        protected(t, start, end, flags),
    ensures
        protected(s + t, start, end, flags),
{
    assert forall|k: int, a: int|
        0 <= k < (s + t).len() && #[trigger] maps((s + t)[k], a) && start <= a < end implies (s
        + t)[k].page_flags == flags by {
        if k < s.len() {
            assert((s + t)[k] == s[k]);
            assert(maps(s[k], a));
        } else {
            assert((s + t)[k] == t[k - s.len()]);
            assert(maps(t[k - s.len()], a));
        }
    }
}

proof fn lemma_protected_one(r: MmapRegion, start: u64, end: u64, flags: u64)
    requires
        r.page_flags == flags || r.end <= start || r.start >= end || r.start >= r.end,
    ensures
        protected(seq![r], start, end, flags),
{
    assert forall|k: int, a: int|
        0 <= k < 1 && #[trigger] maps(seq![r][k], a) && start <= a < end implies seq![r][k].page_flags
        == flags by {
        assert(seq![r][k] == r);
    }
}

proof fn lemma_protect_split(r: MmapRegion, start: u64, end: u64, flags: u64, a: int)
    requires
        r.start <= r.end,
        start <= end,
    ensures
        regions_wf(protect_split(r, start, end, flags)),
        mapped(protect_split(r, start, end, flags), a) == maps(r, a),
        protected(protect_split(r, start, end, flags), start, end, flags),
{
    lemma_mapped_one(r, a);
    lemma_wf_one(r);
    if r.end <= start || r.start >= end {
        lemma_protected_one(r, start, end, flags);
    } else {
        let lo = if r.start >= start {
            r.start
        } else {
            start
        };
        let hi = if r.end <= end {
            r.end
        } else {
            end
        };
        let head_piece = MmapRegion { end: start, ..r };
        let middle_piece = MmapRegion {
            start: lo,
            end: hi,
            page_flags: flags,
            mmap_flags: r.mmap_flags,
            backing: shifted(r.backing, sat_sub(lo, r.start)),
        };
        let tail_piece = MmapRegion {
            start: end,
            end: r.end,
            page_flags: r.page_flags,
            mmap_flags: r.mmap_flags,
            backing: shifted(r.backing, sat_sub(end, r.start)),
        };
        let head = if start > r.start {
            seq![head_piece]
        } else {
            Seq::empty()
        };
        let tail = if end < r.end {
            seq![tail_piece]
        } else {
            Seq::empty()
        };
        let middle = seq![middle_piece];
        lemma_mapped_concat(head, middle, a);
        lemma_mapped_concat(head + middle, tail, a);
        lemma_mapped_one(head_piece, a);
        lemma_mapped_one(middle_piece, a);
        lemma_mapped_one(tail_piece, a);
        lemma_wf_one(middle_piece);
        lemma_protected_one(middle_piece, start, end, flags);
        if start > r.start {
            lemma_wf_one(head_piece);
            lemma_protected_one(head_piece, start, end, flags);
        }
        if end < r.end {
            lemma_wf_one(tail_piece);
            lemma_protected_one(tail_piece, start, end, flags);
        }
        lemma_protected_concat(head, middle, start, end, flags);
        lemma_protected_concat(head + middle, tail, start, end, flags);
    }
}

proof fn lemma_protect_all(s: Seq<MmapRegion>, start: u64, end: u64, flags: u64, a: int)
    requires
        regions_wf(s),
        start <= end,
    ensures
        regions_wf(protect_all(s, start, end, flags)),
        mapped(protect_all(s, start, end, flags), a) == mapped(s, a),
        protected(protect_all(s, start, end, flags), start, end, flags),
    decreases s.len(),
{
    if s.len() > 0 {
        let init = s.drop_last();
        assert(regions_wf(init)) by {
            assert forall|i: int| 0 <= i < init.len() implies #[trigger] init[i].start
                <= init[i].end by {
                assert(init[i] == s[i]);
            }
        }
        lemma_protect_all(init, start, end, flags, a);
        assert(s[s.len() - 1] == s.last());
        lemma_protect_split(s.last(), start, end, flags, a);
        lemma_mapped_concat(
            protect_all(init, start, end, flags),
            protect_split(s.last(), start, end, flags),
            a,
        );
        lemma_protected_concat(
            protect_all(init, start, end, flags),
            protect_split(s.last(), start, end, flags),
            start,
            end,
            flags,
        );
        assert(s =~= init + seq![s.last()]);
        lemma_mapped_concat(init, seq![s.last()], a);
        lemma_mapped_one(s.last(), a);
    }
}

proof fn lemma_coalesced_protected(s: Seq<MmapRegion>, start: u64, end: u64, flags: u64)
    requires
        regions_wf(s),
        protected(s, start, end, flags),
    ensures
        protected(coalesced(s), start, end, flags),
    decreases s.len(),
{
    if s.len() > 0 {
        let init = s.drop_last();
        let r = s.last();
        assert(s[s.len() - 1] == r);
        assert(regions_wf(init)) by {
            assert forall|i: int| 0 <= i < init.len() implies #[trigger] init[i].start
                <= init[i].end by {
                assert(init[i] == s[i]);
            }
        }
        assert(protected(init, start, end, flags)) by {
            assert forall|k: int, a: int|
                0 <= k < init.len() && #[trigger] maps(init[k], a) && start <= a < end implies init[k].page_flags
                == flags by {
                assert(init[k] == s[k]);
            }
        }
        lemma_coalesced_protected(init, start, end, flags);
        lemma_coalesced(init, 0);
        let m = coalesced(init);
        assert(protected(seq![r], start, end, flags)) by {
            assert forall|k: int, a: int|
                0 <= k < 1 && #[trigger] maps(seq![r][k], a) && start <= a < end implies seq![r][k].page_flags
                == flags by {
                assert(seq![r][k] == r);
                assert(maps(s[s.len() - 1], a));
            }
        }
        if m.len() > 0 && mergeable(m.last(), r) {
            let p = m.last();
            let stretched = MmapRegion { end: r.end, ..p };
            assert(m[m.len() - 1] == p);
            assert(protected(seq![stretched], start, end, flags)) by {
                assert forall|k: int, a: int|
                    0 <= k < 1 && #[trigger] maps(seq![stretched][k], a) && start <= a < end implies seq![stretched][k].page_flags
                    == flags by {
                    assert(seq![stretched][k] == stretched);
                    if a < p.end {
                        assert(maps(m[m.len() - 1], a));
                    } else {
                        assert(maps(seq![r][0], a));
                    }
                }
            }
            assert(protected(m.drop_last(), start, end, flags)) by {
                assert forall|k: int, a: int|
                    0 <= k < m.drop_last().len() && #[trigger] maps(m.drop_last()[k], a) && start
                        <= a < end implies m.drop_last()[k].page_flags == flags by {
                    assert(m.drop_last()[k] == m[k]);
                }
            }
            assert(m.drop_last().push(stretched) =~= m.drop_last() + seq![stretched]);
            lemma_protected_concat(m.drop_last(), seq![stretched], start, end, flags);
        } else {
            assert(m.push(r) =~= m + seq![r]);
            lemma_protected_concat(m, seq![r], start, end, flags);
        }
    }
}

/// After `mprotect` of `[start, end)` the same addresses are mapped, and every region that
/// maps an address inside the range carries the new protection; the regions stay well
/// formed.
pub proof fn lemma_protect_keeps_mapping(
    regions: Seq<MmapRegion>,
    start: u64,
    end: u64,
    flags: u64,
    address: int,
)
    requires
        regions_wf(regions),
        start <= end,
    ensures
        regions_wf(coalesced(protect_all(regions, start, end, flags))),
        mapped(coalesced(protect_all(regions, start, end, flags)), address) == mapped(
            regions,
            address,
        ),
        protected(coalesced(protect_all(regions, start, end, flags)), start, end, flags),
{
    lemma_protect_all(regions, start, end, flags, address);
    lemma_coalesced(protect_all(regions, start, end, flags), address);
    lemma_coalesced_protected(protect_all(regions, start, end, flags), start, end, flags);
}

fn sub_or_zero(a: u64, b: u64) -> (r: u64)
    ensures
        r == sat_sub(a, b),
{
    if a >= b {
        a - b
    } else {
        0
    }
}

fn shifted_backing(backing: MmapRegionBacking, delta: u64) -> (r: MmapRegionBacking)
    ensures
        r == shifted(backing, delta),
{
    match backing {
        MmapRegionBacking::Anonymous => MmapRegionBacking::Anonymous,
        MmapRegionBacking::BufferedFile { file, offset } => MmapRegionBacking::BufferedFile {
            file,
            offset: offset.saturating_add(delta),
        },
        MmapRegionBacking::SharedFile { file, offset } => MmapRegionBacking::SharedFile {
            file,
            offset: offset.saturating_add(delta),
        },
        MmapRegionBacking::DirectFile { file, offset } => MmapRegionBacking::DirectFile {
            file,
            offset: offset.saturating_add(delta),
        },
    }
}

fn is_mergeable(lhs: &MmapRegion, rhs: &MmapRegion) -> (r: bool)
    ensures
        r == mergeable(*lhs, *rhs),
{
    if lhs.end != rhs.start || lhs.page_flags != rhs.page_flags || lhs.mmap_flags
        != rhs.mmap_flags {
        return false;
    }
    let length = sub_or_zero(lhs.end, lhs.start);
    match (lhs.backing, rhs.backing) {
        (MmapRegionBacking::Anonymous, MmapRegionBacking::Anonymous) => true,
        (
            MmapRegionBacking::BufferedFile { file: lf, offset: lo },
            MmapRegionBacking::BufferedFile { file: rf, offset: ro },
        ) => lf == rf && sub_or_zero(ro, lo) == length,
        (
            MmapRegionBacking::SharedFile { file: lf, offset: lo },
            MmapRegionBacking::SharedFile { file: rf, offset: ro },
        ) => lf == rf && sub_or_zero(ro, lo) == length,
        (
            MmapRegionBacking::DirectFile { file: lf, offset: lo },
            MmapRegionBacking::DirectFile { file: rf, offset: ro },
        ) => lf == rf && sub_or_zero(ro, lo) == length,
        _ => false,
    }
}

/// The regions of one address space, in the order `insert_mmap_region` keeps them.
pub struct MmapRegions {
    regions: Vec<MmapRegion>,
}

impl MmapRegions {
    /// The regions, in order.
    pub closed spec fn view(&self) -> Seq<MmapRegion> {
        self.regions@
    }

    /// No regions.
    pub fn new() -> (r: Self)
        ensures
            r.view() == Seq::<MmapRegion>::empty(),
    {
        MmapRegions { regions: Vec::new() }
    }

    /// The regions, in order.
    pub fn regions(&self) -> (r: &Vec<MmapRegion>)
        ensures
            r@ == self.view(),
    {
        &self.regions
    }

    fn coalesce(regions: Vec<MmapRegion>) -> (r: Vec<MmapRegion>)
        ensures
            r@ == coalesced(regions@),
    {
        let mut merged: Vec<MmapRegion> = Vec::new();
        let mut i: usize = 0;
        while i < regions.len()
            invariant
                i <= regions.len(),
                merged@ == coalesced(regions@.take(i as int)),
            decreases regions.len() - i,
        {
            let region = regions[i];
            assert(regions@.take(i + 1).drop_last() =~= regions@.take(i as int));
            assert(regions@.take(i + 1).last() == region);
            let n = merged.len();
            if n > 0 && is_mergeable(&merged[n - 1], &region) {
                let mut previous = merged[n - 1];
                previous.end = region.end;
                merged.set(n - 1, previous);
                assert(merged@ =~= merge_step(coalesced(regions@.take(i as int)), region));
            } else {
                merged.push(region);
            }
            i += 1;
        }
        assert(regions@.take(regions.len() as int) =~= regions@);
        merged
    }

    /// The first region that spans all of `[start, end)`, if any.
    pub fn covering_mmap_region(&self, start: u64, end: u64) -> (r: Option<MmapRegion>)
        ensures
            match r {
                Some(region) => exists|i: int|
                    is_first_spanning(self.view(), start, end, i) && region == self.view()[i],
                None => forall|i: int|
                    0 <= i < self.view().len() ==> !spans(#[trigger] self.view()[i], start, end),
            },
    {
        let mut i: usize = 0;
        while i < self.regions.len()
            invariant
                i <= self.regions.len(),
                forall|j: int| 0 <= j < i ==> !spans(#[trigger] self.regions@[j], start, end),
            decreases self.regions.len() - i,
        {
            let region = self.regions[i];
            if start >= region.start && end <= region.end {
                assert(is_first_spanning(self.view(), start, end, i as int));
                return Some(region);
            }
            i += 1;
        }
        None
    }

    /// The part `[start, end)` of the first region that spans it, with its backing moved
    /// to match; `None` when no region spans it.
    pub fn slice_mmap_region(&self, start: u64, end: u64) -> (r: Option<MmapRegion>)
        ensures
            match r {
                Some(piece) => exists|i: int|
                    is_first_spanning(self.view(), start, end, i) && piece == (MmapRegion {
                        start,
                        end,
                        page_flags: self.view()[i].page_flags,
                        mmap_flags: self.view()[i].mmap_flags,
                        backing: shifted(
                            self.view()[i].backing,
                            sat_sub(start, self.view()[i].start),
                        ),
                    }),
                None => forall|i: int|
                    0 <= i < self.view().len() ==> !spans(#[trigger] self.view()[i], start, end),
            },
    {
        match self.covering_mmap_region(start, end) {
            Some(region) => {
                let delta = sub_or_zero(start, region.start);
                Some(
                    MmapRegion {
                        start,
                        end,
                        page_flags: region.page_flags,
                        mmap_flags: region.mmap_flags,
                        backing: shifted_backing(region.backing, delta),
                    },
                )
            },
            None => None,
        }
    }

    /// Adds `region` after every region that starts below it, then merges continuing
    /// neighbours.
    pub fn insert_mmap_region(&mut self, region: MmapRegion)
        ensures
            exists|i: int|
                is_insert_position(old(self).view(), region.start, i) && final(self).view()
                    == coalesced(old(self).view().insert(i, region)),
    {
        let mut index: usize = 0;
        while index < self.regions.len() && self.regions[index].start < region.start
            invariant
                index <= self.regions.len(),
                forall|j: int| 0 <= j < index ==> #[trigger] self.regions@[j].start < region.start,
            decreases self.regions.len() - index,
        {
            index += 1;
        }
        assert(is_insert_position(self.view(), region.start, index as int));
        let ghost before = self.regions@;
        let mut regions = Vec::new();
        std::mem::swap(&mut regions, &mut self.regions);
        regions.insert(index, region);
        self.regions = Self::coalesce(regions);
        assert(self.view() == coalesced(before.insert(index as int, region)));
    }

    /// Gives `[start, end)` the protection `page_flags`, splitting the regions it cuts,
    /// then merges continuing neighbours.
    pub fn update_mmap_region_flags(&mut self, start: u64, end: u64, page_flags: u64)
        ensures
            final(self).view() == coalesced(protect_all(old(self).view(), start, end, page_flags)),
    {
        let mut updated: Vec<MmapRegion> = Vec::new();
        let mut i: usize = 0;
        while i < self.regions.len()
            invariant
                i <= self.regions.len(),
                updated@ == protect_all(self.regions@.take(i as int), start, end, page_flags),
            decreases self.regions.len() - i,
        {
            let region = self.regions[i];
            assert(self.regions@.take(i + 1).drop_last() =~= self.regions@.take(i as int));
            let ghost pieces = protect_split(region, start, end, page_flags);
            let ghost before = updated@;
            if region.end <= start || region.start >= end {
                updated.push(region);
            } else {
                if start > region.start {
                    updated.push(MmapRegion { end: start, ..region });
                }
                let lo = if region.start >= start {
                    region.start
                } else {
                    start
                };
                let hi = if region.end <= end {
                    region.end
                } else {
                    end
                };
                let delta = sub_or_zero(lo, region.start);
                updated.push(
                    MmapRegion {
                        start: lo,
                        end: hi,
                        page_flags,
                        mmap_flags: region.mmap_flags,
                        backing: shifted_backing(region.backing, delta),
                    },
                );
                if end < region.end {
                    let delta = sub_or_zero(end, region.start);
                    updated.push(
                        MmapRegion {
                            start: end,
                            end: region.end,
                            page_flags: region.page_flags,
                            mmap_flags: region.mmap_flags,
                            backing: shifted_backing(region.backing, delta),
                        },
                    );
                }
            }
            assert(updated@ =~= before + pieces);
            i += 1;
        }
        assert(self.regions@.take(self.regions.len() as int) =~= self.regions@);
        self.regions = Self::coalesce(updated);
    }

    /// Drops `[start, end)` from the regions, keeping the parts on either side, then merges
    /// continuing neighbours.
    pub fn remove_mmap_region_range(&mut self, start: u64, end: u64)
        ensures
            final(self).view() == coalesced(unmap_all(old(self).view(), start, end)),
    {
        let mut updated: Vec<MmapRegion> = Vec::new();
        let mut i: usize = 0;
        while i < self.regions.len()
            invariant
                i <= self.regions.len(),
                updated@ == unmap_all(self.regions@.take(i as int), start, end),
            decreases self.regions.len() - i,
        {
            let region = self.regions[i];
            assert(self.regions@.take(i + 1).drop_last() =~= self.regions@.take(i as int));
            let ghost pieces = unmap_split(region, start, end);
            let ghost before = updated@;
            if end <= region.start || start >= region.end {
                updated.push(region);
            } else {
                if start > region.start {
                    updated.push(MmapRegion { end: start, ..region });
                }
                if end < region.end {
                    let delta = sub_or_zero(end, region.start);
                    updated.push(
                        MmapRegion {
                            start: end,
                            end: region.end,
                            page_flags: region.page_flags,
                            mmap_flags: region.mmap_flags,
                            backing: shifted_backing(region.backing, delta),
                        },
                    );
                }
            }
            assert(updated@ =~= before + pieces);
            i += 1;
        }
        assert(self.regions@.take(self.regions.len() as int) =~= self.regions@);
        self.regions = Self::coalesce(updated);
    }
}

} // verus!
