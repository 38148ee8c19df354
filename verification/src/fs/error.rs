//! Errors of the filesystem layer and the system-call errors they become.
use vstd::prelude::*;

use crate::errno::SysErr;

verus! {

/// What a filesystem operation can fail with.
#[derive(Debug, Clone, Copy, PartialEq, Eq, Structural)]
pub enum FsError {
    NotFound,
    NotDirectory,
    NotFile,
    AlreadyExists,
    Unsupported,
    InvalidInput,
    RootNotMounted,
    WouldBlock,
    BrokenPipe,
    Io,
}

/// Result of a filesystem operation.
pub type FsResult<T> = Result<T, FsError>;

/// What a DRM ioctl can fail with.
#[derive(Debug, Clone, Copy, PartialEq, Eq, Structural)]
pub enum DrmIoctlError {
    Invalid,
    NotFound,
    Busy,
    Permission,
    NotSupported,
    NoMemory,
}

/// Why mapping memory failed.
#[derive(Debug, Clone, Copy, PartialEq, Eq, Structural)]
pub enum MappingError {
    OutOfMemory,
    Frame,
    NotMapped,
    AlreadyMapped,
}

/// Why building a process image failed.
#[derive(Debug, Clone, Copy, PartialEq, Eq, Structural)]
pub enum BuildError {
    Frame,
    Mapping(MappingError),
    AddressOverflow,
    StackOverflow,
    InvalidElf,
    UnsupportedElf,
    Image,
    EmptyProgram,
}

/// The system-call error of a filesystem error.
pub open spec fn spec_from_fs_error(e: FsError) -> SysErr {
    match e {
        FsError::NotFound => SysErr::NoEnt,
        FsError::NotDirectory => SysErr::NotDir,
        FsError::NotFile => SysErr::Inval,
        FsError::AlreadyExists => SysErr::Exists,
        FsError::Unsupported => SysErr::NotSup,
        FsError::InvalidInput => SysErr::Inval,
        FsError::RootNotMounted => SysErr::Inval,
        FsError::WouldBlock => SysErr::Again,
        FsError::BrokenPipe => SysErr::Pipe,
        FsError::Io => SysErr::Io,
    }
}

impl SysErr {
    /// The system-call error of a filesystem error.
    pub fn from_fs_error(value: FsError) -> (r: SysErr)
        ensures
            r == spec_from_fs_error(value),
    {
        match value {
            FsError::NotFound => SysErr::NoEnt,
            FsError::NotDirectory => SysErr::NotDir,
            FsError::NotFile => SysErr::Inval,
            FsError::AlreadyExists => SysErr::Exists,
            FsError::Unsupported => SysErr::NotSup,
            FsError::InvalidInput | FsError::RootNotMounted => SysErr::Inval,
            FsError::WouldBlock => SysErr::Again,
            FsError::BrokenPipe => SysErr::Pipe,
            FsError::Io => SysErr::Io,
        }
    }

    /// The system-call error of a DRM ioctl error.
    pub fn from_drm_error(value: DrmIoctlError) -> (r: SysErr)
        ensures
            r == match value {
                DrmIoctlError::Invalid => SysErr::Inval,
                DrmIoctlError::NotFound => SysErr::NoEnt,
                DrmIoctlError::Busy => SysErr::Busy,
                DrmIoctlError::Permission => SysErr::Perm,
                DrmIoctlError::NotSupported => SysErr::NotSup,
                DrmIoctlError::NoMemory => SysErr::NoMem,
            },
    {
        match value {
            DrmIoctlError::Invalid => SysErr::Inval,
            DrmIoctlError::NotFound => SysErr::NoEnt,
            DrmIoctlError::Busy => SysErr::Busy,
            DrmIoctlError::Permission => SysErr::Perm,
            DrmIoctlError::NotSupported => SysErr::NotSup,
            DrmIoctlError::NoMemory => SysErr::NoMem,
        }
    }

    /// The system-call error of a failed process build: out of memory for frame and
    /// allocation failures, `Fault` for an unmapped page, `Inval` for everything else.
    pub fn from_build_error(value: BuildError) -> (r: SysErr)
        ensures
            r == match value {
                BuildError::Frame => SysErr::NoMem,
                BuildError::Mapping(MappingError::OutOfMemory) => SysErr::NoMem,
                BuildError::Mapping(MappingError::Frame) => SysErr::NoMem,
                BuildError::Mapping(MappingError::NotMapped) => SysErr::Fault,
                _ => SysErr::Inval,
            },
    {
        match value {
            BuildError::Frame => SysErr::NoMem,
            BuildError::Mapping(MappingError::OutOfMemory) | BuildError::Mapping(MappingError::Frame) => {
                SysErr::NoMem
            },
            BuildError::Mapping(MappingError::NotMapped) => SysErr::Fault,
            BuildError::AddressOverflow
            | BuildError::StackOverflow
            | BuildError::InvalidElf
            | BuildError::UnsupportedElf
            | BuildError::Image
            | BuildError::EmptyProgram
            | BuildError::Mapping(_) => SysErr::Inval,
        }
    }
}

} // verus!
