//! `FileDescriptor` and `OpenMode`: open file handles.
use vstd::prelude::*;
use crate::inode::InodeId;

verus! {

/// How a file was opened.
#[derive(Debug, Clone, Copy, PartialEq, Eq, Structural)]
pub enum OpenMode {
    Read,
    Write,
    ReadWrite,
    Append,
}

/// A file descriptor referencing an open file.
#[derive(Debug, Clone, Copy)]
pub struct FileDescriptor {
    pub fd: u32,
    pub inode_id: InodeId,
    pub mode: OpenMode,
    pub offset: u64,
}

} // verus!
