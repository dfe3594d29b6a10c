//! `Inode` and `InodeKind`: file, directory and symlink nodes.
use vstd::prelude::*;
use crate::directory::{DirEntry, entries_map, entries_sorted};
use crate::permissions::Permissions;

verus! {

pub type InodeId = u64;

/// The kind of data stored in an inode.
#[derive(Debug, Clone, PartialEq, Eq)]
pub enum InodeKind {
    File { data: Vec<u8> },
    Directory { children: Vec<DirEntry> },
    Symlink { target: String },
}

/// A single inode in the virtual filesystem.
#[derive(Debug, Clone)]
pub struct Inode {
    pub id: InodeId,
    pub kind: InodeKind,
    pub permissions: Permissions,
    pub link_count: u32,
    pub size: u64,
}

/// What an inode holds, as mathematical values.
pub enum KindView {
    File(Seq<u8>),
    Directory(Map<Seq<char>, InodeId>),
    Symlink(Seq<char>),
}

/// An inode as mathematical values.
pub struct InodeView {
    pub id: InodeId,
    pub kind: KindView,
    pub permissions: Permissions,
    pub link_count: u32,
    pub size: u64,
}

pub open spec fn kind_view(k: InodeKind) -> KindView {
    match k {
        InodeKind::File { data } => KindView::File(data@),
        InodeKind::Directory { children } => KindView::Directory(entries_map(children@)),
        InodeKind::Symlink { target } => KindView::Symlink(target@),
    }
}

impl View for Inode {
    type V = InodeView;

    open spec fn view(&self) -> InodeView {
        InodeView {
            id: self.id,
            kind: kind_view(self.kind),
            permissions: self.permissions,
            link_count: self.link_count,
            size: self.size,
        }
    }
}

/// A directory's entries are kept sorted by name; a file's size is the
/// length of its contents.
pub open spec fn inode_wf(i: Inode) -> bool {
    match i.kind {
        InodeKind::Directory { children } => entries_sorted(children@),
        InodeKind::File { data } => i.size == data@.len(),
        _ => true,
    }
}

/// The number of bytes in the UTF-8 encoding of `s`, as `str::len` gives it.
pub open spec fn byte_len(s: Seq<char>) -> u64 {
    (vstd::utf8::encode_utf8(s).len() as usize) as u64
}

/// A fresh directory inode.
pub open spec fn new_dir_view(id: InodeId, perms: Permissions) -> InodeView {
    InodeView {
        id,
        kind: KindView::Directory(Map::empty()),
        permissions: perms,
        link_count: 2,
        size: 0,
    }
}

/// A fresh, empty file inode.
pub open spec fn new_file_view(id: InodeId, perms: Permissions) -> InodeView {
    InodeView { id, kind: KindView::File(Seq::empty()), permissions: perms, link_count: 1, size: 0 }
}

/// A fresh symlink inode.
pub open spec fn new_symlink_view(id: InodeId, target: Seq<char>, perms: Permissions) -> InodeView {
    InodeView {
        id,
        kind: KindView::Symlink(target),
        permissions: perms,
        link_count: 1,
        size: byte_len(target),
    }
}

impl Inode {
    pub fn new_dir(id: InodeId, perms: Permissions) -> (r: Self)
        ensures
            r@ == new_dir_view(id, perms),
            inode_wf(r),
    {
        let r = Self {
            id,
            kind: InodeKind::Directory { children: Vec::new() },
            permissions: perms,
            link_count: 2,  // . and parent
            size: 0,
        };
        assert(entries_map(Seq::<DirEntry>::empty()) =~= Map::empty());
        r
    }

    pub fn new_file(id: InodeId, perms: Permissions) -> (r: Self)
        ensures
            r@ == new_file_view(id, perms),
            inode_wf(r),
    {
        Self {
            id,
            kind: InodeKind::File { data: Vec::new() },
            permissions: perms,
            link_count: 1,
            size: 0,
        }
    }

    pub fn new_symlink(id: InodeId, target: String, perms: Permissions) -> (r: Self)
        ensures
            r@ == new_symlink_view(id, target@, perms),
            inode_wf(r),
    {
        let size = target.as_str().len() as u64;
        Self { id, kind: InodeKind::Symlink { target }, permissions: perms, link_count: 1, size }
    }

    pub fn is_dir(&self) -> (r: bool)
        ensures
            r == (self.kind is Directory),
            r == (self@.kind is Directory),
    {
        matches!(self.kind, InodeKind::Directory { .. })
    }

    pub fn is_file(&self) -> (r: bool)
        ensures
            r == (self.kind is File),
            r == (self@.kind is File),
    {
        matches!(self.kind, InodeKind::File { .. })
    }

    pub fn is_symlink(&self) -> (r: bool)
        ensures
            r == (self.kind is Symlink),
            r == (self@.kind is Symlink),
    {
        matches!(self.kind, InodeKind::Symlink { .. })
    }
}

} // verus!
