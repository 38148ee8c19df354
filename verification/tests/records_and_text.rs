use lib::deadline::DeadlineSet;
use lib::errno::SysErr;
use lib::fs::abi::{
    linux_dev_parts, linux_makedev, make_stat, make_statx, serialize_dirents64, serialize_stat, serialize_statfs, LinuxStatFs,
    STATX_BASIC_STATS, STATX_BTIME, STATX_MODE,
};
use lib::fs::node::{DirectoryEntry, NodeKind, NodeMetadata, NodeTimestamp};
use lib::text::{bytes_equal, count_components, leading_slashes, push_decimal, push_digits, push_from, push_padded};
use lib::timespec::{ns_to_timespec, read_timespec_at, LinuxTimespec};
use lib::wire::{push_i32, push_u16, push_u64, read_i32_at, read_u16_at, read_u64_at};

fn metadata() -> NodeMetadata {
    let t = NodeTimestamp { secs: 100, nanos: 5 };
    NodeMetadata {
        device_id: 3, inode: 42, nlink: 2, mode: 0o100644, uid: 1000, gid: 100,
        rdev_major: 136, rdev_minor: 300, size: u64::MAX, block_size: 4096, blocks: 8,
        atime: t, mtime: t, ctime: t, btime: t,
    }
}

#[test]
fn timespecs() {
    assert_eq!(LinuxTimespec { tv_sec: 1, tv_nsec: 5 }.total_nanos(), Ok(1_000_000_005));
    assert_eq!(LinuxTimespec { tv_sec: -1, tv_nsec: 0 }.total_nanos(), Err(SysErr::Inval));
    assert_eq!(LinuxTimespec { tv_sec: 0, tv_nsec: 1_000_000_000 }.validate(), Err(SysErr::Inval));
    assert_eq!(LinuxTimespec { tv_sec: i64::MAX, tv_nsec: 0 }.total_nanos(), Err(SysErr::Inval));
    assert_eq!(ns_to_timespec(2_500_000_001), LinuxTimespec { tv_sec: 2, tv_nsec: 500_000_001 });
    let mut bytes = Vec::new();
    LinuxTimespec { tv_sec: 7, tv_nsec: 9 }.to_bytes(&mut bytes);
    assert_eq!(bytes.len(), 16);
    assert_eq!(read_timespec_at(&bytes, 0), LinuxTimespec { tv_sec: 7, tv_nsec: 9 });
}

#[test]
fn deadline_sets() {
    let mut set = DeadlineSet::new();
    assert_eq!(set.earliest(), None);
    set.insert(300, 1);
    set.insert(100, 7);
    set.insert(100, 2);
    assert!(set.contains(100, 7));
    assert_eq!(set.earliest(), Some(100));
    assert_eq!(set.take_deadline(100), vec![2, 7]);
    assert_eq!(set.earliest(), Some(300));
    set.remove(300, 1);
    assert_eq!(set.earliest(), None);
}

#[test]
fn stat_records() {
    let stat = make_stat(&metadata());
    assert_eq!(stat.st_ino, 42);
    assert_eq!(stat.st_size, i64::MAX);
    assert_eq!(stat.st_rdev, (300u64 & 0xff) | (136u64 << 8) | ((300u64 & !0xffu64) << 12));
    assert_eq!(serialize_stat(&stat).len(), 144);
    let statx = make_statx(&metadata(), STATX_MODE);
    assert_eq!(statx.stx_mask, STATX_MODE);
    assert_eq!(make_statx(&metadata(), 0).stx_mask, STATX_BASIC_STATS | STATX_BTIME);
    assert_eq!(statx.stx_mode, 0o100644);
}

#[test]
fn statfs_records() {
    let statfs = LinuxStatFs::new(0x1cd1, 4096, 255).with_device_id(0x1_0000_0002);
    assert_eq!(statfs.f_fsid, [2, 1]);
    assert_eq!(serialize_statfs(&statfs).len(), 120);
}

#[test]
fn directory_records() {
    let entries = vec![
        DirectoryEntry { name: b"a".to_vec(), kind: NodeKind::File },
        DirectoryEntry { name: b"dir".to_vec(), kind: NodeKind::Directory },
    ];
    let bytes = serialize_dirents64(&entries, 0, 4096);
    assert_eq!(bytes.len(), 48);
    assert_eq!(read_u64_at(&bytes, 0), 1);
    assert_eq!(read_u16_at(&bytes, 16), 24);
    assert_eq!(bytes[18], 8);
    assert_eq!(bytes[19], b'a');
    assert_eq!(bytes[24 + 18], 4);
    assert_eq!(&bytes[24 + 19..24 + 22], b"dir");
    assert_eq!(serialize_dirents64(&entries, 0, 30).len(), 24);
    assert_eq!(serialize_dirents64(&entries, 1, 4096).len(), 24);
    assert!(serialize_dirents64(&entries, 2, 4096).is_empty());
}

#[test]
fn numbers_as_text() {
    let mut out = Vec::new();
    push_decimal(&mut out, 0);
    out.push(b' ');
    push_decimal(&mut out, 1234567890);
    out.push(b' ');
    push_digits(&mut out, 255, 16, false);
    out.push(b' ');
    push_padded(&mut out, 0xab, 16, true, 4);
    assert_eq!(out, b"0 1234567890 ff 00AB".to_vec());
}

#[test]
fn path_text() {
    assert_eq!(count_components(b"//usr//bin/"), 2);
    assert_eq!(count_components(b"/"), 0);
    assert_eq!(leading_slashes(b"///x"), 3);
    assert_eq!(leading_slashes(b"x"), 0);
    let mut out = b">".to_vec();
    push_from(&mut out, b"abcdef", 3);
    assert_eq!(out, b">def".to_vec());
    assert!(bytes_equal(b"abc", b"abc"));
    assert!(!bytes_equal(b"abc", b"abd"));
    assert!(!bytes_equal(b"abc", b"ab"));
}

#[test]
fn little_endian_fields() {
    let mut bytes = Vec::new();
    push_u64(&mut bytes, 0x0102_0304_0506_0708);
    push_i32(&mut bytes, -2);
    push_u16(&mut bytes, 0xbeef);
    assert_eq!(bytes[0], 0x08);
    assert_eq!(read_u64_at(&bytes, 0), 0x0102_0304_0506_0708);
    assert_eq!(read_i32_at(&bytes, 8), -2);
    assert_eq!(read_u16_at(&bytes, 12), 0xbeef);
}

#[test]
fn device_numbers_split_back_into_their_parts() {
    assert_eq!(linux_makedev(8, 1), 0x801);
    assert_eq!(linux_dev_parts(linux_makedev(8, 1)), (8, 1));
    assert_eq!(linux_dev_parts(linux_makedev(0xfff, 0x12345)), (0xfff, 0x12345));
    assert_eq!(linux_dev_parts(linux_makedev(136, u32::MAX as u64)), (136, u32::MAX));
}
