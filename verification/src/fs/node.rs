//! What the kernel reads of a filesystem node: its kind, its metadata and its directory
//! entries, as plain values.
use vstd::prelude::*;

verus! {

/// The kind of a filesystem node.
#[derive(Debug, Clone, Copy, PartialEq, Eq, Structural)]
pub enum NodeKind {
    Directory,
    File,
    Socket,
    Symlink,
    BlockDevice,
    CharDevice,
    Fifo,
}

/// A point in time as a node records it.
#[derive(Debug, Clone, Copy, PartialEq, Eq, Structural)]
pub struct NodeTimestamp {
    pub secs: i64,
    pub nanos: u32,
}

/// The metadata of a node.
#[derive(Debug, Clone, Copy, PartialEq, Eq, Structural)]
pub struct NodeMetadata {
    pub device_id: u64,
    pub inode: u64,
    pub nlink: u32,
    pub mode: u32,
    pub uid: u32,
    pub gid: u32,
    pub rdev_major: u32,
    pub rdev_minor: u32,
    pub size: u64,
    pub block_size: u32,
    pub blocks: u64,
    pub atime: NodeTimestamp,
    pub mtime: NodeTimestamp,
    pub ctime: NodeTimestamp,
    pub btime: NodeTimestamp,
}

/// One entry of a directory listing; the name is held as its bytes.
#[derive(Debug, Clone)]
pub struct DirectoryEntry {
    pub name: Vec<u8>,
    pub kind: NodeKind,
}

} // verus!
