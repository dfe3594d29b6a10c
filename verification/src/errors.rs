//! `FsError` and `FsResult`: the filesystem's error values.
use vstd::prelude::*;

verus! {

/// All possible filesystem errors.
#[derive(Debug, Clone, Copy, PartialEq, Eq, Structural)]
pub enum FsError {
    NotFound,
    AlreadyExists,
    NotADirectory,
    IsADirectory,
    NotEmpty,
    PermissionDenied,
    InvalidPath,
    InvalidFileDescriptor,
    SymlinkLoop,
    NotASymlink,
    MountPointNotEmpty,
    MountPointNotFound,
    CrossMount,
    BufferFull,
    EndOfFile,
    ReadOnly,
    WriteOnly,
}

/// Result type of every fallible filesystem operation.
pub type FsResult<T> = Result<T, FsError>;

/// The human-readable message of each error.
pub open spec fn error_message(e: FsError) -> Seq<char> {
    match e {
        FsError::NotFound => "not found"@,
        FsError::AlreadyExists => "already exists"@,
        FsError::NotADirectory => "not a directory"@,
        FsError::IsADirectory => "is a directory"@,
        FsError::NotEmpty => "directory not empty"@,
        FsError::PermissionDenied => "permission denied"@,
        FsError::InvalidPath => "invalid path"@,
        FsError::InvalidFileDescriptor => "invalid file descriptor"@,
        FsError::SymlinkLoop => "too many symlink levels"@,
        FsError::NotASymlink => "not a symlink"@,
        FsError::MountPointNotEmpty => "mount point not empty"@,
        FsError::MountPointNotFound => "mount point not found"@,
        FsError::CrossMount => "cross-mount operation"@,
        FsError::BufferFull => "buffer full"@,
        FsError::EndOfFile => "end of file"@,
        FsError::ReadOnly => "file descriptor is read-only"@,
        FsError::WriteOnly => "file descriptor is write-only"@,
    }
}

impl FsError {
    /// The message that describes this error.
    pub fn message(&self) -> (r: &'static str)
        ensures
            r@ == error_message(*self),
    {
        match self {
            FsError::NotFound => "not found",
            FsError::AlreadyExists => "already exists",
            FsError::NotADirectory => "not a directory",
            FsError::IsADirectory => "is a directory",
            FsError::NotEmpty => "directory not empty",
            FsError::PermissionDenied => "permission denied",
            FsError::InvalidPath => "invalid path",
            FsError::InvalidFileDescriptor => "invalid file descriptor",
            FsError::SymlinkLoop => "too many symlink levels",
            FsError::NotASymlink => "not a symlink",
            FsError::MountPointNotEmpty => "mount point not empty",
            FsError::MountPointNotFound => "mount point not found",
            FsError::CrossMount => "cross-mount operation",
            FsError::BufferFull => "buffer full",
            FsError::EndOfFile => "end of file",
            FsError::ReadOnly => "file descriptor is read-only",
            FsError::WriteOnly => "file descriptor is write-only",
        }
    }
}

} // verus!
