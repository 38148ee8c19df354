use lib::process::mmap::{MmapRegion, MmapRegionBacking, MmapRegions};

fn anon(start: u64, end: u64, flags: u64) -> MmapRegion {
    MmapRegion { start, end, page_flags: flags, mmap_flags: 0x22, backing: MmapRegionBacking::Anonymous }
}

fn file(start: u64, end: u64, id: u64, offset: u64) -> MmapRegion {
    MmapRegion {
        start,
        end,
        page_flags: 1,
        mmap_flags: 0x02,
        backing: MmapRegionBacking::BufferedFile { file: id, offset },
    }
}

#[test]
fn adjacent_anonymous_regions_merge() {
    let mut regions = MmapRegions::new();
    regions.insert_mmap_region(anon(0x2000, 0x3000, 3));
    regions.insert_mmap_region(anon(0x1000, 0x2000, 3));
    assert_eq!(regions.regions().clone(), vec![anon(0x1000, 0x3000, 3)]);
}

#[test]
fn regions_with_different_protection_stay_apart() {
    let mut regions = MmapRegions::new();
    regions.insert_mmap_region(anon(0x1000, 0x2000, 3));
    regions.insert_mmap_region(anon(0x2000, 0x3000, 1));
    assert_eq!(regions.regions().len(), 2);
    assert_eq!(regions.regions()[0], anon(0x1000, 0x2000, 3));
    assert_eq!(regions.regions()[1], anon(0x2000, 0x3000, 1));
}

#[test]
fn file_regions_merge_only_at_continuing_offsets() {
    let mut regions = MmapRegions::new();
    regions.insert_mmap_region(file(0x1000, 0x2000, 7, 0));
    regions.insert_mmap_region(file(0x2000, 0x3000, 7, 0x1000));
    assert_eq!(regions.regions().clone(), vec![file(0x1000, 0x3000, 7, 0)]);

    let mut other = MmapRegions::new();
    other.insert_mmap_region(file(0x1000, 0x2000, 7, 0));
    other.insert_mmap_region(file(0x2000, 0x3000, 7, 0x5000));
    other.insert_mmap_region(file(0x3000, 0x4000, 8, 0x6000));
    assert_eq!(other.regions().len(), 3);
}

#[test]
fn unmapping_the_middle_splits_and_moves_the_offset() {
    let mut regions = MmapRegions::new();
    regions.insert_mmap_region(file(0x1000, 0x5000, 9, 0x10000));
    regions.remove_mmap_region_range(0x2000, 0x3000);
    assert_eq!(
        regions.regions().clone(),
        vec![file(0x1000, 0x2000, 9, 0x10000), file(0x3000, 0x5000, 9, 0x12000)]
    );
    assert!(regions.covering_mmap_region(0x2000, 0x2001).is_none());
    assert!(regions.covering_mmap_region(0x1000, 0x2000).is_some());
}

#[test]
fn unmapping_everything_leaves_nothing() {
    let mut regions = MmapRegions::new();
    regions.insert_mmap_region(anon(0x1000, 0x2000, 3));
    regions.insert_mmap_region(anon(0x4000, 0x5000, 3));
    regions.remove_mmap_region_range(0, 0x10000);
    assert!(regions.regions().is_empty());
}

#[test]
fn protecting_the_middle_makes_three_regions_and_back_again() {
    let mut regions = MmapRegions::new();
    regions.insert_mmap_region(anon(0x1000, 0x4000, 3));
    regions.update_mmap_region_flags(0x2000, 0x3000, 1);
    assert_eq!(
        regions.regions().clone(),
        vec![anon(0x1000, 0x2000, 3), anon(0x2000, 0x3000, 1), anon(0x3000, 0x4000, 3)]
    );
    regions.update_mmap_region_flags(0x2000, 0x3000, 3);
    assert_eq!(regions.regions().clone(), vec![anon(0x1000, 0x4000, 3)]);
}

#[test]
fn slicing_a_file_region_moves_its_offset() {
    let mut regions = MmapRegions::new();
    regions.insert_mmap_region(file(0x1000, 0x5000, 4, 0x800));
    let piece = regions.slice_mmap_region(0x3000, 0x4000).unwrap();
    assert_eq!(piece, file(0x3000, 0x4000, 4, 0x2800));
    assert!(regions.slice_mmap_region(0x4000, 0x6000).is_none());
}
