//! The mount table entry, `MountEntry`.
use vstd::prelude::*;
use crate::inode::InodeId;

verus! {

/// Represents a mounted sub-filesystem at a given path.
#[derive(Debug, Clone)]
pub struct MountEntry {
    pub mount_path: String,
    pub root_inode: InodeId,
    pub label: String,
}

/// A mount entry as mathematical values.
pub struct MountView {
    pub path: Seq<char>,
    pub root: InodeId,
    pub label: Seq<char>,
}

impl View for MountEntry {
    type V = MountView;

    open spec fn view(&self) -> MountView {
        MountView { path: self.mount_path@, root: self.root_inode, label: self.label@ }
    }
}

} // verus!
