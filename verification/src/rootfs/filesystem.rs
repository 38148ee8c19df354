//! The filesystem types the kernel mounts, with their magic numbers and `statfs` records.
use vstd::prelude::*;

use crate::errno::SysErr;
use crate::fs::abi::LinuxStatFs;

verus! {

pub const DEFAULT_BLOCK_SIZE: u64 = 4096;
pub const DEFAULT_NAME_LEN: u64 = 255;

pub const TMPFS_MAGIC: u64 = 0x0102_1994;
pub const PROC_SUPER_MAGIC: u64 = 0x0000_9fa0;
pub const SYSFS_MAGIC: u64 = 0x6265_6572;
pub const RAMFS_MAGIC: u64 = 0x8584_58f6;
pub const BIND_MAGIC: u64 = 0;
pub const EXT_SUPER_MAGIC: u64 = 0xEF53;

/// The `statfs` record of a filesystem without real capacity: its magic, 4 KiB blocks,
/// 255-byte names.
pub fn default_statfs(magic: u64) -> (r: LinuxStatFs)
    ensures
        r == default_statfs_spec(magic),
{
    LinuxStatFs {
        f_type: magic,
        f_bsize: DEFAULT_BLOCK_SIZE,
        f_blocks: 0,
        f_bfree: 0,
        f_bavail: 0,
        f_files: 0,
        f_ffree: 0,
        f_fsid: [0i32, 0i32],
        f_namelen: DEFAULT_NAME_LEN,
        f_frsize: DEFAULT_BLOCK_SIZE,
        f_flags: 0,
        f_spare: [0u64, 0u64, 0u64, 0u64],
    }
}

/// A memory filesystem, created empty at each mount.
pub struct TmpFs;

impl TmpFs {
    /// `tmpfs`.
    pub fn fstype(&self) -> (r: &'static str)
        ensures
            r == "tmpfs",
    {
        "tmpfs"
    }

    /// Its magic number.
    pub fn magic(&self) -> (r: u64)
        ensures
            r == TMPFS_MAGIC,
    {
        TMPFS_MAGIC
    }

    /// The `statfs` record of a mount.
    pub fn mount_statfs(&self) -> (r: LinuxStatFs)
        ensures
            r == default_statfs_spec(TMPFS_MAGIC),
    {
        default_statfs(TMPFS_MAGIC)
    }
}

/// The `statfs` record `default_statfs` makes.
pub open spec fn default_statfs_spec(magic: u64) -> LinuxStatFs {
    LinuxStatFs {
        f_type: magic,
        f_bsize: DEFAULT_BLOCK_SIZE,
        f_blocks: 0,
        f_bfree: 0,
        f_bavail: 0,
        f_files: 0,
        f_ffree: 0,
        f_fsid: [0i32, 0i32],
        f_namelen: DEFAULT_NAME_LEN,
        f_frsize: DEFAULT_BLOCK_SIZE,
        f_flags: 0,
        f_spare: [0u64, 0u64, 0u64, 0u64],
    }
}

/// The pseudo filesystem of bind mounts: it cannot be mounted by type.
pub struct BindFs;

impl BindFs {
    /// `bind`.
    pub fn fstype(&self) -> (r: &'static str)
        ensures
            r == "bind",
    {
        "bind"
    }

    /// Its magic number, 0.
    pub fn magic(&self) -> (r: u64)
        ensures
            r == BIND_MAGIC,
    {
        BIND_MAGIC
    }

    /// Mounting it by type is `Inval`: a bind mount names an existing directory.
    pub fn mount(&self) -> (r: Result<(), SysErr>)
        ensures
            r == Err::<(), SysErr>(SysErr::Inval),
    {
        Err(SysErr::Inval)
    }
}

/// An ext2/3/4 filesystem under one of its type names.
pub struct ExtFileSystem {
    fstype: &'static str,
}

/// What an ext filesystem reports of itself once mounted.
#[derive(Debug, Clone, Copy, PartialEq, Eq, Structural)]
pub struct ExtStat {
    pub block_size: u64,
    pub blocks: u64,
    pub free_blocks: u64,
    pub files: u64,
    pub free_inodes: u64,
    pub name_len: u64,
}

impl ExtFileSystem {
    pub closed spec fn spec_fstype(&self) -> &'static str {
        self.fstype
    }

    /// The ext filesystem known as `fstype`.
    pub fn new(fstype: &'static str) -> (r: Self)
        ensures
            r.spec_fstype() == fstype,
    {
        ExtFileSystem { fstype }
    }

    /// Its type name.
    pub fn fstype(&self) -> (r: &'static str)
        ensures
            r == self.spec_fstype(),
    {
        self.fstype
    }

    /// Its magic number.
    pub fn magic(&self) -> (r: u64)
        ensures
            r == EXT_SUPER_MAGIC,
    {
        EXT_SUPER_MAGIC
    }

    /// A mount needs a source device: `Inval` without one.
    pub fn check_source(&self, has_source: bool) -> (r: Result<(), SysErr>)
        ensures
            r == (if has_source {
                Ok::<(), SysErr>(())
            } else {
                Err(SysErr::Inval)
            }),
    {
        if has_source {
            Ok(())
        } else {
            Err(SysErr::Inval)
        }
    }

    /// The `statfs` record of a mount, from what the filesystem reports: every free
    /// block is available, and the fragment size is the block size.
    pub fn mount_statfs(&self, stat: ExtStat) -> (r: LinuxStatFs)
        ensures
            r == (LinuxStatFs {
                f_type: EXT_SUPER_MAGIC,
                f_bsize: stat.block_size,
                f_blocks: stat.blocks,
                f_bfree: stat.free_blocks,
                f_bavail: stat.free_blocks,
                f_files: stat.files,
                f_ffree: stat.free_inodes,
                f_fsid: [0i32, 0i32],
                f_namelen: stat.name_len,
                f_frsize: stat.block_size,
                f_flags: 0,
                f_spare: [0u64, 0u64, 0u64, 0u64],
            }),
    {
        LinuxStatFs {
            f_type: self.magic(),
            f_bsize: stat.block_size,
            f_blocks: stat.blocks,
            f_bfree: stat.free_blocks,
            f_bavail: stat.free_blocks,
            f_files: stat.files,
            f_ffree: stat.free_inodes,
            f_fsid: [0i32, 0i32],
            f_namelen: stat.name_len,
            f_frsize: stat.block_size,
            f_flags: 0,
            f_spare: [0u64, 0u64, 0u64, 0u64],
        }
    }
}

} // verus!
