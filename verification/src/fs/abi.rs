//! The records `stat`, `statx`, `statfs`, `uname` and `getdents64` hand to user space.
use vstd::prelude::*;
use vstd::string::StringSliceAdditionalSpecFns;

use super::node::{DirectoryEntry, NodeKind, NodeMetadata, NodeTimestamp};
use crate::wire::{
    i32_le, i64_le, push_bytes, push_i32, push_i64, push_u16, push_u32, push_u64, u16_le, u32_le,
    u64_le,
};

verus! {

/// The `stat` record.
#[derive(Clone, Copy, Default)]
pub struct LinuxStat {
    pub st_dev: u64,
    pub st_ino: u64,
    pub st_nlink: u64,
    pub st_mode: u32,
    pub st_uid: u32,
    pub st_gid: u32,
    pub __pad0: u32,
    pub st_rdev: u64,
    pub st_size: i64,
    pub st_blksize: i64,
    pub st_blocks: i64,
    pub st_atime: i64,
    pub st_atime_nsec: i64,
    pub st_mtime: i64,
    pub st_mtime_nsec: i64,
    pub st_ctime: i64,
    pub st_ctime_nsec: i64,
    pub __unused: [i64; 3],
}

/// The `utsname` record: six NUL-padded fields of 65 bytes.
#[derive(Clone, Copy)]
pub struct LinuxUtsName {
    pub sysname: [u8; 65],
    pub nodename: [u8; 65],
    pub release: [u8; 65],
    pub version: [u8; 65],
    pub machine: [u8; 65],
    pub domainname: [u8; 65],
}

/// The `statfs` record.
#[derive(Clone, Copy, Debug, PartialEq, Eq)]
pub struct LinuxStatFs {
    pub f_type: u64,
    pub f_bsize: u64,
    pub f_blocks: u64,
    pub f_bfree: u64,
    pub f_bavail: u64,
    pub f_files: u64,
    pub f_ffree: u64,
    pub f_fsid: [i32; 2],
    pub f_namelen: u64,
    pub f_frsize: u64,
    pub f_flags: u64,
    pub f_spare: [u64; 4],
}

/// A `statx` timestamp.
#[derive(Clone, Copy, Default, PartialEq, Eq, Structural)]
pub struct LinuxStatxTimestamp {
    pub tv_sec: i64,
    pub tv_nsec: u32,
    pub __reserved: i32,
}

/// The `statx` record.
#[derive(Clone, Copy, Default)]
pub struct LinuxStatx {
    pub stx_mask: u32,
    pub stx_blksize: u32,
    pub stx_attributes: u64,
    pub stx_nlink: u32,
    pub stx_uid: u32,
    pub stx_gid: u32,
    pub stx_mode: u16,
    pub __spare0: u16,
    pub stx_ino: u64,
    pub stx_size: u64,
    pub stx_blocks: u64,
    pub stx_attributes_mask: u64,
    pub stx_atime: LinuxStatxTimestamp,
    pub stx_btime: LinuxStatxTimestamp,
    pub stx_ctime: LinuxStatxTimestamp,
    pub stx_mtime: LinuxStatxTimestamp,
    pub stx_rdev_major: u32,
    pub stx_rdev_minor: u32,
    pub stx_dev_major: u32,
    pub stx_dev_minor: u32,
    pub stx_mnt_id: u64,
    pub stx_dio_mem_align: u32,
    pub stx_dio_offset_align: u32,
    pub stx_subvol: u64,
    pub stx_atomic_write_unit_min: u32,
    pub stx_atomic_write_unit_max: u32,
    pub stx_atomic_write_segments_max: u32,
    pub stx_atomic_write_unit_max_opt: u32,
    pub __spare2: u32,
    pub __spare3: [u64; 12],
}

/// The device a filesystem lives on and what `statfs` reports of it.
#[derive(Clone, Copy, Debug, PartialEq, Eq)]
pub struct FileSystemIdentity {
    pub device_id: u64,
    pub statfs: LinuxStatFs,
}

impl FileSystemIdentity {
    pub fn new(device_id: u64, statfs: LinuxStatFs) -> (r: Self)
        ensures
            r.device_id == device_id,
            r.statfs == statfs,
    {
        FileSystemIdentity { device_id, statfs }
    }
}

impl LinuxStatFs {
    /// A `statfs` record with a magic, block size and name length, and every count zero.
    pub fn new(magic: u64, block_size: u64, name_len: u64) -> (r: Self)
        ensures
            r.f_type == magic,
            r.f_bsize == block_size,
            r.f_blocks == 0 && r.f_bfree == 0 && r.f_bavail == 0,
            r.f_files == 0 && r.f_ffree == 0,
            r.f_fsid@ == seq![0i32, 0i32],
            r.f_namelen == name_len,
            r.f_frsize == block_size,
            r.f_flags == 0,
            r.f_spare@ == seq![0u64, 0u64, 0u64, 0u64],
    {
        let r = LinuxStatFs {
            f_type: magic,
            f_bsize: block_size,
            f_blocks: 0,
            f_bfree: 0,
            f_bavail: 0,
            f_files: 0,
            f_ffree: 0,
            f_fsid: [0i32, 0i32],
            f_namelen: name_len,
            f_frsize: block_size,
            f_flags: 0,
            f_spare: [0u64, 0u64, 0u64, 0u64],
        };
        assert(r.f_fsid@ =~= seq![0i32, 0i32]);
        assert(r.f_spare@ =~= seq![0u64, 0u64, 0u64, 0u64]);
        r
    }

    /// The same record with the filesystem ID made of the device's low and high 32 bits.
    pub fn with_device_id(self, device_id: u64) -> (r: Self)
        ensures
            r.f_fsid@ == seq![device_id as i32, (device_id >> 32u64) as i32],
            r.f_type == self.f_type && r.f_bsize == self.f_bsize && r.f_blocks == self.f_blocks,
            r.f_bfree == self.f_bfree && r.f_bavail == self.f_bavail && r.f_files
                == self.f_files,
            r.f_ffree == self.f_ffree && r.f_namelen == self.f_namelen && r.f_frsize
                == self.f_frsize,
            r.f_flags == self.f_flags && r.f_spare == self.f_spare,
    {
        let mut r = self;
        r.f_fsid = [device_id as i32, (device_id >> 32u64) as i32];
        assert(r.f_fsid@ =~= seq![device_id as i32, (device_id >> 32u64) as i32]);
        r
    }
}

/// A 65-byte `utsname` field holding `value`, cut to 64 bytes and NUL-padded.
pub open spec fn uts_field(value: Seq<u8>) -> Seq<u8> {
    Seq::new(65, |i: int| if i < value.len() && i < 64 { value[i] } else { 0u8 })
}

fn write_field(field: &mut [u8; 65], value: &[u8])
    requires
        forall|i: int| 0 <= i < 65 ==> #[trigger] old(field)@[i] == 0,
    ensures
        final(field)@ == uts_field(value@),
{
    let len = if value.len() < 64 {
        value.len()
    } else {
        64
    };
    let mut i: usize = 0;
    while i < len
        invariant
            i <= len,
            len <= 64,
            len <= value@.len(),
            len == (if value@.len() < 64 {
                value@.len()
            } else {
                64
            }),
            field@.len() == 65,
            forall|k: int| 0 <= k < i ==> #[trigger] field@[k] == value@[k],
            forall|k: int| i <= k < 65 ==> #[trigger] field@[k] == 0,
        decreases len - i,
    {
        field[i] = value[i];
        i = i + 1;
    }
    assert(field@ =~= uts_field(value@));
}

impl LinuxUtsName {
    /// The `uname` answer of this kernel: Linux 6.12.0 "#1 Aether" on x86_64, node name
    /// "aether", domain "localdomain".
    pub fn linux_x86_64() -> (r: Self)
        ensures
            r.sysname@ == uts_field("Linux".spec_bytes()),
            r.nodename@ == uts_field("aether".spec_bytes()),
            r.release@ == uts_field("6.12.0".spec_bytes()),
            r.version@ == uts_field("#1 Aether".spec_bytes()),
            r.machine@ == uts_field("x86_64".spec_bytes()),
            r.domainname@ == uts_field("localdomain".spec_bytes()),
    {
        let mut uts = LinuxUtsName {
            sysname: [0u8; 65],
            nodename: [0u8; 65],
            release: [0u8; 65],
            version: [0u8; 65],
            machine: [0u8; 65],
            domainname: [0u8; 65],
        };
        write_field(&mut uts.sysname, "Linux".as_bytes());
        write_field(&mut uts.nodename, "aether".as_bytes());
        write_field(&mut uts.release, "6.12.0".as_bytes());
        write_field(&mut uts.version, "#1 Aether".as_bytes());
        write_field(&mut uts.machine, "x86_64".as_bytes());
        write_field(&mut uts.domainname, "localdomain".as_bytes());
        uts
    }
}

pub const STATX_TYPE: u32 = 0x0000_0001;
pub const STATX_MODE: u32 = 0x0000_0002;
pub const STATX_NLINK: u32 = 0x0000_0004;
pub const STATX_UID: u32 = 0x0000_0008;
pub const STATX_GID: u32 = 0x0000_0010;
pub const STATX_ATIME: u32 = 0x0000_0020;
pub const STATX_MTIME: u32 = 0x0000_0040;
pub const STATX_CTIME: u32 = 0x0000_0080;
pub const STATX_INO: u32 = 0x0000_0100;
pub const STATX_SIZE: u32 = 0x0000_0200;
pub const STATX_BLOCKS: u32 = 0x0000_0400;
pub const STATX_BASIC_STATS: u32 = 0x0000_07ff;
pub const STATX_BTIME: u32 = 0x0000_0800;
pub const STATX_RESERVED: u32 = 0x8000_0000;

/// The basic-stats mask is the union of its eleven bits.
pub proof fn lemma_statx_basic_stats()
    ensures
        STATX_BASIC_STATS == STATX_TYPE | STATX_MODE | STATX_NLINK | STATX_UID | STATX_GID
            | STATX_ATIME | STATX_MTIME | STATX_CTIME | STATX_INO | STATX_SIZE | STATX_BLOCKS,
{
    assert(0x7ffu32 == 1u32 | 2u32 | 4u32 | 8u32 | 0x10u32 | 0x20u32 | 0x40u32 | 0x80u32
        | 0x100u32 | 0x200u32 | 0x400u32) by (bit_vector);
}

/// Linux's encoding of a device number from its major and minor parts.
pub open spec fn spec_makedev(major: u64, minor: u64) -> u64 {
    (minor & 0xff) | ((major & 0xfff) << 8u64) | ((minor & !0xffu64) << 12u64) | ((major
        & !0xfffu64) << 32u64)
}

/// The major part of a device number, clamped to 32 bits.
pub open spec fn spec_dev_major(dev: u64) -> u32 {
    let m = ((dev >> 8u64) & 0xfff) | ((dev >> 32u64) & !0xfffu64);
    if m > u32::MAX {
        u32::MAX
    } else {
        m as u32
    }
}

/// The minor part of a device number, clamped to 32 bits.
pub open spec fn spec_dev_minor(dev: u64) -> u32 {
    let m = (dev & 0xff) | ((dev >> 12u64) & !0xffu64);
    if m > u32::MAX {
        u32::MAX
    } else {
        m as u32
    }
}

/// The encoded device number of `major` and `minor`; see `spec_makedev`.
pub fn linux_makedev(major: u64, minor: u64) -> (r: u64)
    ensures
        r == spec_makedev(major, minor),
{
    (minor & 0xff) | ((major & 0xfff) << 8u64) | ((minor & !0xffu64) << 12u64) | ((major
        & !0xfffu64) << 32u64)
}

/// The major and minor numbers of an encoded device number, each saturated to `u32`.
pub fn linux_dev_parts(dev: u64) -> (r: (u32, u32))
    ensures
        r == (spec_dev_major(dev), spec_dev_minor(dev)),
{
    let major = ((dev >> 8u64) & 0xfff) | ((dev >> 32u64) & !0xfffu64);
    let minor = (dev & 0xff) | ((dev >> 12u64) & !0xffu64);
    let major = if major > u32::MAX as u64 {
        u32::MAX
    } else {
        major as u32
    };
    let minor = if minor > u32::MAX as u64 {
        u32::MAX
    } else {
        minor as u32
    };
    (major, minor)
}

/// Splitting an encoded device number gives back its parts, for a major below 4096 (the
/// encoding keeps the high major bits where the minor's high bits are read from).
pub proof fn lemma_dev_roundtrip(major: u32, minor: u32)
    requires
        major < 4096,
    ensures
        spec_dev_major(spec_makedev(major as u64, minor as u64)) == major,
        spec_dev_minor(spec_makedev(major as u64, minor as u64)) == minor,
{
    let ma = major as u64;
    let mi = minor as u64;
    let d = spec_makedev(ma, mi);
    assert((((((mi & 0xff) | ((ma & 0xfff) << 8u64) | ((mi & !0xffu64) << 12u64) | ((ma
        & !0xfffu64) << 32u64)) >> 8u64) & 0xfff) | ((((mi & 0xff) | ((ma & 0xfff) << 8u64) | ((mi
        & !0xffu64) << 12u64) | ((ma & !0xfffu64) << 32u64)) >> 32u64) & !0xfffu64)) == ma)
        by (bit_vector)
        requires
            ma < 4096,
            mi <= 0xffff_ffff,
    ;
    assert(((((mi & 0xff) | ((ma & 0xfff) << 8u64) | ((mi & !0xffu64) << 12u64) | ((ma
        & !0xfffu64) << 32u64)) & 0xff) | ((((mi & 0xff) | ((ma & 0xfff) << 8u64) | ((mi
        & !0xffu64) << 12u64) | ((ma & !0xfffu64) << 32u64)) >> 12u64) & !0xffu64)) == mi)
        by (bit_vector)
        requires
            ma < 4096,
            mi <= 0xffff_ffff,
    ;
}

/// The `stat` record of a node.
pub open spec fn spec_make_stat(m: NodeMetadata) -> LinuxStat {
    LinuxStat {
        st_dev: m.device_id,
        st_ino: m.inode,
        st_nlink: m.nlink as u64,
        st_mode: m.mode,
        st_uid: m.uid,
        st_gid: m.gid,
        __pad0: 0,
        st_rdev: spec_makedev(m.rdev_major as u64, m.rdev_minor as u64),
        st_size: if m.size > i64::MAX {
            i64::MAX
        } else {
            m.size as i64
        },
        st_blksize: m.block_size as i64,
        st_blocks: if m.blocks > i64::MAX {
            i64::MAX
        } else {
            m.blocks as i64
        },
        st_atime: m.atime.secs,
        st_atime_nsec: m.atime.nanos as i64,
        st_mtime: m.mtime.secs,
        st_mtime_nsec: m.mtime.nanos as i64,
        st_ctime: m.ctime.secs,
        st_ctime_nsec: m.ctime.nanos as i64,
        __unused: [0i64, 0i64, 0i64],
    }
}

fn clamp_i64(v: u64) -> (r: i64)
    ensures
        r == (if v > i64::MAX {
            i64::MAX
        } else {
            v as i64
        }),
{
    if v > i64::MAX as u64 {
        i64::MAX
    } else {
        v as i64
    }
}

/// The `stat` record of a node with metadata `metadata`: sizes above `i64::MAX` are
/// clamped, and the device number is encoded Linux's way.
pub fn make_stat(metadata: &NodeMetadata) -> (r: LinuxStat)
    ensures
        r == spec_make_stat(*metadata),
{
    LinuxStat {
        st_dev: metadata.device_id,
        st_ino: metadata.inode,
        st_nlink: metadata.nlink as u64,
        st_mode: metadata.mode,
        st_uid: metadata.uid,
        st_gid: metadata.gid,
        __pad0: 0,
        st_rdev: linux_makedev(metadata.rdev_major as u64, metadata.rdev_minor as u64),
        st_size: clamp_i64(metadata.size),
        st_blksize: metadata.block_size as i64,
        st_blocks: clamp_i64(metadata.blocks),
        st_atime: metadata.atime.secs,
        st_atime_nsec: metadata.atime.nanos as i64,
        st_mtime: metadata.mtime.secs,
        st_mtime_nsec: metadata.mtime.nanos as i64,
        st_ctime: metadata.ctime.secs,
        st_ctime_nsec: metadata.ctime.nanos as i64,
        __unused: [0i64, 0i64, 0i64],
    }
}

/// A node timestamp as `statx` reports it.
pub open spec fn spec_statx_timestamp(t: NodeTimestamp) -> LinuxStatxTimestamp {
    LinuxStatxTimestamp { tv_sec: t.secs, tv_nsec: t.nanos, __reserved: 0 }
}

fn statx_timestamp(timestamp: NodeTimestamp) -> (r: LinuxStatxTimestamp)
    ensures
        r == spec_statx_timestamp(timestamp),
{
    LinuxStatxTimestamp { tv_sec: timestamp.secs, tv_nsec: timestamp.nanos, __reserved: 0 }
}

/// The fields `statx` reports, of those asked for (all of them when `mask` is 0).
pub open spec fn statx_result_mask(mask: u32) -> u32 {
    if mask == 0 {
        STATX_BASIC_STATS | STATX_BTIME
    } else {
        (STATX_BASIC_STATS | STATX_BTIME) & mask
    }
}

/// The `statx` record of a node, for the fields in `mask`: the basic stats and the birth
/// time are always filled; the mask reports which of the asked fields are valid; other
/// fields are zero.
pub fn make_statx(metadata: &NodeMetadata, mask: u32) -> (r: LinuxStatx)
    ensures
        r.stx_mask == statx_result_mask(mask),
        r.stx_blksize == metadata.block_size,
        r.stx_attributes == 0,
        r.stx_nlink == metadata.nlink,
        r.stx_uid == metadata.uid,
        r.stx_gid == metadata.gid,
        r.stx_mode == metadata.mode as u16,
        r.__spare0 == 0,
        r.stx_ino == metadata.inode,
        r.stx_size == metadata.size,
        r.stx_blocks == metadata.blocks,
        r.stx_attributes_mask == 0,
        r.stx_atime == spec_statx_timestamp(metadata.atime),
        r.stx_btime == spec_statx_timestamp(metadata.btime),
        r.stx_ctime == spec_statx_timestamp(metadata.ctime),
        r.stx_mtime == spec_statx_timestamp(metadata.mtime),
        r.stx_rdev_major == metadata.rdev_major,
        r.stx_rdev_minor == metadata.rdev_minor,
        r.stx_dev_major == spec_dev_major(metadata.device_id),
        r.stx_dev_minor == spec_dev_minor(metadata.device_id),
        r.stx_mnt_id == 0 && r.stx_dio_mem_align == 0 && r.stx_dio_offset_align == 0,
        r.stx_subvol == 0 && r.stx_atomic_write_unit_min == 0 && r.stx_atomic_write_unit_max
            == 0,
        r.stx_atomic_write_segments_max == 0 && r.stx_atomic_write_unit_max_opt == 0,
        r.__spare2 == 0,
        r.__spare3@ == Seq::new(12, |i: int| 0u64),
{
    let supported = STATX_BASIC_STATS | STATX_BTIME;
    let result_mask = if mask == 0 {
        supported
    } else {
        supported & mask
    };
    let (dev_major, dev_minor) = linux_dev_parts(metadata.device_id);
    let r = LinuxStatx {
        stx_mask: result_mask,
        stx_blksize: metadata.block_size,
        stx_attributes: 0,
        stx_nlink: metadata.nlink,
        stx_uid: metadata.uid,
        stx_gid: metadata.gid,
        stx_mode: metadata.mode as u16,
        __spare0: 0,
        stx_ino: metadata.inode,
        stx_size: metadata.size,
        stx_blocks: metadata.blocks,
        stx_attributes_mask: 0,
        stx_atime: statx_timestamp(metadata.atime),
        stx_btime: statx_timestamp(metadata.btime),
        stx_ctime: statx_timestamp(metadata.ctime),
        stx_mtime: statx_timestamp(metadata.mtime),
        stx_rdev_major: metadata.rdev_major,
        stx_rdev_minor: metadata.rdev_minor,
        stx_dev_major: dev_major,
        stx_dev_minor: dev_minor,
        stx_mnt_id: 0,
        stx_dio_mem_align: 0,
        stx_dio_offset_align: 0,
        stx_subvol: 0,
        stx_atomic_write_unit_min: 0,
        stx_atomic_write_unit_max: 0,
        stx_atomic_write_segments_max: 0,
        stx_atomic_write_unit_max_opt: 0,
        __spare2: 0,
        __spare3: [0u64; 12],
    };
    assert(r.__spare3@ =~= Seq::new(12, |i: int| 0u64));
    r
}

/// The 144 bytes of a `stat` record.
pub open spec fn stat_bytes(s: LinuxStat) -> Seq<u8> {
    u64_le(s.st_dev) + u64_le(s.st_ino) + u64_le(s.st_nlink) + u32_le(s.st_mode) + u32_le(s.st_uid)
        + u32_le(s.st_gid) + u32_le(s.__pad0) + u64_le(s.st_rdev) + i64_le(s.st_size) + i64_le(
        s.st_blksize,
    ) + i64_le(s.st_blocks) + i64_le(s.st_atime) + i64_le(s.st_atime_nsec) + i64_le(s.st_mtime)
        + i64_le(s.st_mtime_nsec) + i64_le(s.st_ctime) + i64_le(s.st_ctime_nsec) + i64_le(
        s.__unused[0],
    ) + i64_le(s.__unused[1]) + i64_le(s.__unused[2])
}

/// Writes a `stat` record.
pub fn serialize_stat(stat: &LinuxStat) -> (r: Vec<u8>)
    ensures
        r@ == stat_bytes(*stat),
        r@.len() == 144,
{
    let mut bytes: Vec<u8> = Vec::with_capacity(144);
    push_u64(&mut bytes, stat.st_dev);
    push_u64(&mut bytes, stat.st_ino);
    push_u64(&mut bytes, stat.st_nlink);
    push_u32(&mut bytes, stat.st_mode);
    push_u32(&mut bytes, stat.st_uid);
    push_u32(&mut bytes, stat.st_gid);
    push_u32(&mut bytes, stat.__pad0);
    push_u64(&mut bytes, stat.st_rdev);
    push_i64(&mut bytes, stat.st_size);
    push_i64(&mut bytes, stat.st_blksize);
    push_i64(&mut bytes, stat.st_blocks);
    push_i64(&mut bytes, stat.st_atime);
    push_i64(&mut bytes, stat.st_atime_nsec);
    push_i64(&mut bytes, stat.st_mtime);
    push_i64(&mut bytes, stat.st_mtime_nsec);
    push_i64(&mut bytes, stat.st_ctime);
    push_i64(&mut bytes, stat.st_ctime_nsec);
    push_i64(&mut bytes, stat.__unused[0]);
    push_i64(&mut bytes, stat.__unused[1]);
    push_i64(&mut bytes, stat.__unused[2]);
    assert(bytes@ =~= stat_bytes(*stat));
    bytes
}

/// The 16 bytes of a `statx` timestamp.
pub open spec fn statx_timestamp_bytes(t: LinuxStatxTimestamp) -> Seq<u8> {
    i64_le(t.tv_sec) + u32_le(t.tv_nsec) + i32_le(t.__reserved)
}

fn serialize_statx_timestamp(bytes: &mut Vec<u8>, timestamp: &LinuxStatxTimestamp)
    ensures
        final(bytes)@ == old(bytes)@ + statx_timestamp_bytes(*timestamp),
{
    push_i64(bytes, timestamp.tv_sec);
    push_u32(bytes, timestamp.tv_nsec);
    push_i32(bytes, timestamp.__reserved);
    assert(bytes@ =~= old(bytes)@ + statx_timestamp_bytes(*timestamp));
}

/// The bytes of a sequence of words, each least significant byte first.
pub open spec fn u64s_le(s: Seq<u64>) -> Seq<u8>
    decreases s.len(),
{
    if s.len() == 0 {
        Seq::empty()
    } else {
        u64s_le(s.drop_last()) + u64_le(s.last())
    }
}

fn push_u64_array(bytes: &mut Vec<u8>, words: &[u64])
    ensures
        final(bytes)@ == old(bytes)@ + u64s_le(words@),
{
    let mut i: usize = 0;
    while i < words.len()
        invariant
            i <= words@.len(),
            bytes@ == old(bytes)@ + u64s_le(words@.subrange(0, i as int)),
        decreases words@.len() - i,
    {
        push_u64(bytes, words[i]);
        proof {
            let t = words@.subrange(0, i + 1);
            assert(t.drop_last() =~= words@.subrange(0, i as int));
        }
        i = i + 1;
    }
    assert(words@.subrange(0, words@.len() as int) =~= words@);
}

/// The bytes of a `statx` record, field after field.
pub open spec fn statx_bytes(s: LinuxStatx) -> Seq<u8> {
    u32_le(s.stx_mask) + u32_le(s.stx_blksize) + u64_le(s.stx_attributes) + u32_le(s.stx_nlink)
        + u32_le(s.stx_uid) + u32_le(s.stx_gid) + u16_le(s.stx_mode) + u16_le(s.__spare0) + u64_le(
        s.stx_ino,
    ) + u64_le(s.stx_size) + u64_le(s.stx_blocks) + u64_le(s.stx_attributes_mask)
        + statx_timestamp_bytes(s.stx_atime) + statx_timestamp_bytes(s.stx_btime)
        + statx_timestamp_bytes(s.stx_ctime) + statx_timestamp_bytes(s.stx_mtime) + u32_le(
        s.stx_rdev_major,
    ) + u32_le(s.stx_rdev_minor) + u32_le(s.stx_dev_major) + u32_le(s.stx_dev_minor) + u64_le(
        s.stx_mnt_id,
    ) + u32_le(s.stx_dio_mem_align) + u32_le(s.stx_dio_offset_align) + u64_le(s.stx_subvol)
        + u32_le(s.stx_atomic_write_unit_min) + u32_le(s.stx_atomic_write_unit_max) + u32_le(
        s.stx_atomic_write_segments_max,
    ) + u32_le(s.stx_atomic_write_unit_max_opt) + u32_le(s.__spare2) + u64s_le(s.__spare3@)
}

/// Writes a `statx` record.
pub fn serialize_statx(statx: &LinuxStatx) -> (r: Vec<u8>)
    ensures
        r@ == statx_bytes(*statx),
{
    let mut bytes: Vec<u8> = Vec::with_capacity(284);
    push_u32(&mut bytes, statx.stx_mask);
    push_u32(&mut bytes, statx.stx_blksize);
    push_u64(&mut bytes, statx.stx_attributes);
    push_u32(&mut bytes, statx.stx_nlink);
    push_u32(&mut bytes, statx.stx_uid);
    push_u32(&mut bytes, statx.stx_gid);
    push_u16(&mut bytes, statx.stx_mode);
    push_u16(&mut bytes, statx.__spare0);
    push_u64(&mut bytes, statx.stx_ino);
    push_u64(&mut bytes, statx.stx_size);
    push_u64(&mut bytes, statx.stx_blocks);
    push_u64(&mut bytes, statx.stx_attributes_mask);
    serialize_statx_timestamp(&mut bytes, &statx.stx_atime);
    serialize_statx_timestamp(&mut bytes, &statx.stx_btime);
    serialize_statx_timestamp(&mut bytes, &statx.stx_ctime);
    serialize_statx_timestamp(&mut bytes, &statx.stx_mtime);
    push_u32(&mut bytes, statx.stx_rdev_major);
    push_u32(&mut bytes, statx.stx_rdev_minor);
    push_u32(&mut bytes, statx.stx_dev_major);
    push_u32(&mut bytes, statx.stx_dev_minor);
    push_u64(&mut bytes, statx.stx_mnt_id);
    push_u32(&mut bytes, statx.stx_dio_mem_align);
    push_u32(&mut bytes, statx.stx_dio_offset_align);
    push_u64(&mut bytes, statx.stx_subvol);
    push_u32(&mut bytes, statx.stx_atomic_write_unit_min);
    push_u32(&mut bytes, statx.stx_atomic_write_unit_max);
    push_u32(&mut bytes, statx.stx_atomic_write_segments_max);
    push_u32(&mut bytes, statx.stx_atomic_write_unit_max_opt);
    push_u32(&mut bytes, statx.__spare2);
    push_u64_array(&mut bytes, statx.__spare3.as_slice());
    assert(bytes@ =~= statx_bytes(*statx));
    bytes
}

/// The 120 bytes of a `statfs` record.
pub open spec fn statfs_bytes(s: LinuxStatFs) -> Seq<u8> {
    u64_le(s.f_type) + u64_le(s.f_bsize) + u64_le(s.f_blocks) + u64_le(s.f_bfree) + u64_le(
        s.f_bavail,
    ) + u64_le(s.f_files) + u64_le(s.f_ffree) + i32_le(s.f_fsid[0]) + i32_le(s.f_fsid[1])
        + u64_le(s.f_namelen) + u64_le(s.f_frsize) + u64_le(s.f_flags) + u64s_le(s.f_spare@)
}

/// Writes a `statfs` record.
pub fn serialize_statfs(statfs: &LinuxStatFs) -> (r: Vec<u8>)
    ensures
        r@ == statfs_bytes(*statfs),
{
    let mut bytes: Vec<u8> = Vec::with_capacity(120);
    push_u64(&mut bytes, statfs.f_type);
    push_u64(&mut bytes, statfs.f_bsize);
    push_u64(&mut bytes, statfs.f_blocks);
    push_u64(&mut bytes, statfs.f_bfree);
    push_u64(&mut bytes, statfs.f_bavail);
    push_u64(&mut bytes, statfs.f_files);
    push_u64(&mut bytes, statfs.f_ffree);
    push_i32(&mut bytes, statfs.f_fsid[0]);
    push_i32(&mut bytes, statfs.f_fsid[1]);
    push_u64(&mut bytes, statfs.f_namelen);
    push_u64(&mut bytes, statfs.f_frsize);
    push_u64(&mut bytes, statfs.f_flags);
    push_u64_array(&mut bytes, statfs.f_spare.as_slice());
    assert(bytes@ =~= statfs_bytes(*statfs));
    bytes
}

/// Writes a `utsname` record: its six fields one after the other.
pub fn serialize_utsname(uts: &LinuxUtsName) -> (r: Vec<u8>)
    ensures
        r@ == uts.sysname@ + uts.nodename@ + uts.release@ + uts.version@ + uts.machine@
            + uts.domainname@,
{
    let mut bytes: Vec<u8> = Vec::with_capacity(390);
    push_bytes(&mut bytes, uts.sysname.as_slice());
    push_bytes(&mut bytes, uts.nodename.as_slice());
    push_bytes(&mut bytes, uts.release.as_slice());
    push_bytes(&mut bytes, uts.version.as_slice());
    push_bytes(&mut bytes, uts.machine.as_slice());
    push_bytes(&mut bytes, uts.domainname.as_slice());
    bytes
}

/// The `d_type` of a node kind.
pub open spec fn spec_dirent_type(kind: NodeKind) -> u8 {
    match kind {
        NodeKind::Directory => 4,
        NodeKind::File => 8,
        NodeKind::Socket => 12,
        NodeKind::Symlink => 10,
        NodeKind::BlockDevice => 6,
        NodeKind::CharDevice => 2,
        NodeKind::Fifo => 1,
    }
}

fn dirent_type(kind: NodeKind) -> (r: u8)
    ensures
        r == spec_dirent_type(kind),
{
    match kind {
        NodeKind::Directory => 4,
        NodeKind::File => 8,
        NodeKind::Socket => 12,
        NodeKind::Symlink => 10,
        NodeKind::BlockDevice => 6,
        NodeKind::CharDevice => 2,
        NodeKind::Fifo => 1,
    }
}

/// The length of the `linux_dirent64` record of a name of `n` bytes: header, name and NUL,
/// rounded up to 8.
pub open spec fn dirent_reclen(n: int) -> int {
    let raw = 8 + 8 + 2 + 1 + n + 1;
    raw + (8 - raw % 8) % 8
}

/// The `linux_dirent64` record of the entry at `index` with `name` and `kind`: inode and
/// offset both `index + 1`, the record length, the type, the name, then zeros.
pub open spec fn dirent_record(index: int, name: Seq<u8>, kind: NodeKind) -> Seq<u8> {
    let reclen = dirent_reclen(name.len() as int);
    u64_le((index + 1) as u64) + i64_le((index + 1) as i64) + u16_le(reclen as u16) + seq![
        spec_dirent_type(kind),
    ] + name + Seq::new((reclen - 19 - name.len()) as nat, |i: int| 0u8)
}

/// The records of the entries from `i` on that fit after `acc` within `capacity` bytes,
/// stopping at the first that does not fit.
pub open spec fn dirents_from(
    names: Seq<Seq<u8>>,
    kinds: Seq<NodeKind>,
    i: int,
    capacity: int,
    acc: Seq<u8>,
) -> Seq<u8>
    decreases names.len() - i,
{
    if i < 0 || i >= names.len() {
        acc
    } else {
        let rec = dirent_record(i, names[i], kinds[i]);
        if acc.len() + rec.len() > capacity {
            acc
        } else {
            dirents_from(names, kinds, i + 1, capacity, acc + rec)
        }
    }
}

/// The names of a listing.
pub open spec fn entry_names(entries: Seq<DirectoryEntry>) -> Seq<Seq<u8>> {
    entries.map_values(|e: DirectoryEntry| e.name@)
}

/// The kinds of a listing.
pub open spec fn entry_kinds(entries: Seq<DirectoryEntry>) -> Seq<NodeKind> {
    entries.map_values(|e: DirectoryEntry| e.kind)
}

proof fn lemma_reclen(n: int)
    requires
        n >= 0,
    ensures
        dirent_reclen(n) % 8 == 0,
        dirent_reclen(n) >= 20 + n,
        dirent_reclen(n) < 28 + n,
{
}

/// Writes the `getdents64` records of `entries` from `start` on, as many as fit in
/// `capacity` bytes, stopping at the first that does not fit.
pub fn serialize_dirents64(entries: &[DirectoryEntry], start: usize, capacity: usize) -> (r: Vec<
    u8,
>)
    ensures
        r@ == dirents_from(
            entry_names(entries@),
            entry_kinds(entries@),
            start as int,
            capacity as int,
            Seq::empty(),
        ),
{
    let mut buffer: Vec<u8> = Vec::new();
    let mut index = start;
    let ghost names = entry_names(entries@);
    let ghost kinds = entry_kinds(entries@);
    assert(names.len() == entries@.len() && kinds.len() == entries@.len());
    while index < entries.len()
        invariant_except_break
            start <= index,
            names == entry_names(entries@),
            kinds == entry_kinds(entries@),
            names.len() == entries@.len(),
            kinds.len() == entries@.len(),
            buffer@.len() <= capacity,
            dirents_from(names, kinds, start as int, capacity as int, Seq::empty()) == dirents_from(
                names,
                kinds,
                index as int,
                capacity as int,
                buffer@,
            ),
        ensures
            buffer@ == dirents_from(names, kinds, start as int, capacity as int, Seq::empty()),
        decreases entries@.len() - index,
    {
        let entry = &entries[index];
        let n = entry.name.len();
        let ghost rec = dirent_record(index as int, names[index as int], kinds[index as int]);
        proof {
            lemma_reclen(n as int);
            assert(names[index as int] == entries@[index as int].name@);
            assert(kinds[index as int] == entries@[index as int].kind);
        }
        let raw: u128 = 20 + n as u128;
        let reclen_wide: u128 = raw + (8 - raw % 8) % 8;
        assert(reclen_wide == dirent_reclen(n as int));
        assert(rec.len() == reclen_wide);
        if buffer.len() as u128 + reclen_wide > capacity as u128 {
            break;
        }
        let reclen: usize = reclen_wide as usize;
        let ghost before = buffer@;
        push_u64(&mut buffer, index as u64 + 1);
        push_i64(&mut buffer, (index + 1) as i64);
        push_u16(&mut buffer, reclen as u16);
        buffer.push(dirent_type(entry.kind));
        push_bytes(&mut buffer, entry.name.as_slice());
        let mut k: usize = 0;
        while k < reclen - 19 - n
            invariant
                k <= reclen - 19 - n,
                buffer@ == before + u64_le((index + 1) as u64) + i64_le((index + 1) as i64)
                    + u16_le(reclen as u16) + seq![spec_dirent_type(entry.kind)] + entry.name@
                    + Seq::new(k as nat, |i: int| 0u8),
            decreases reclen - 19 - n - k,
        {
            buffer.push(0);
            assert(buffer@ =~= before + u64_le((index + 1) as u64) + i64_le((index + 1) as i64)
                + u16_le(reclen as u16) + seq![spec_dirent_type(entry.kind)] + entry.name@
                + Seq::new((k + 1) as nat, |i: int| 0u8));
            k = k + 1;
        }
        assert(buffer@ =~= before + rec);
        index = index + 1;
    }
    buffer
}

} // verus!
