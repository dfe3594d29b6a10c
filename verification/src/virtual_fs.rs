//! `VirtualFs`: the virtual filesystem engine.
use vstd::prelude::*;

mod file_io;
mod mounting;
mod namespace;
mod resolve;
use std::collections::HashMap;
use crate::directory::{entries_insert, entries_remove};
use crate::fd::FileDescriptor;
use crate::inode::{Inode, InodeId, InodeKind, InodeView, KindView, inode_wf, kind_view};
use crate::model::{FsView, initial_view, insert_child_view, remove_child_view, roots_not_symlinks,
    set_inode};
use crate::mount::MountEntry;
use crate::permissions::Permissions;

verus! {

broadcast use vstd::std_specs::hash::group_hash_axioms;

/// The main virtual filesystem struct.
#[derive(Debug)]
pub struct VirtualFs {
    inodes: HashMap<InodeId, Inode>,
    next_inode: InodeId,
    root_inode: InodeId,
    fds: HashMap<u32, FileDescriptor>,
    next_fd: u32,
    mounts: Vec<MountEntry>,
    max_symlink_depth: u32,
}

/// The facts about a filesystem state that every operation keeps: ids are keys,
/// ids were handed out before, the symlink limit is fixed.
pub open spec fn view_wf(v: FsView) -> bool {
    &&& v.max_depth == 40
    &&& v.inodes.dom().finite()
    &&& forall|id: InodeId| #[trigger] v.inodes.contains_key(id) ==> v.inodes[id].id == id && id
        < v.next_inode
    &&& forall|fd: u32| #[trigger] v.fds.contains_key(fd) ==> v.fds[fd].fd == fd && fd < v.next_fd
    &&& v.root < v.next_inode
    &&& forall|j: int| 0 <= j < v.mounts.len() ==> #[trigger] v.mounts[j].root < v.next_inode
    &&& roots_not_symlinks(v)
    &&& forall|id: InodeId| #[trigger] v.inodes.contains_key(id) && v.inodes[id].kind is File
        ==> v.inodes[id].size == v.inodes[id].kind->File_0.len()
}

/// The root is a directory, and no directory lists it as an entry.
pub open spec fn root_ok(v: FsView) -> bool {
    &&& v.inodes.contains_key(v.root)
    &&& v.inodes[v.root].kind is Directory
    &&& forall|id: InodeId, k: Seq<char>|
        #![trigger v.inodes[id].kind->Directory_0.contains_key(k)]
        v.inodes.contains_key(id) && v.inodes[id].kind is Directory
            && v.inodes[id].kind->Directory_0.contains_key(k) ==> v.inodes[id].kind->Directory_0[k]
            != v.root
}

/// Whether resolution can start at `id`: the root or a mount's root.
pub open spec fn is_root_of(v: FsView, id: InodeId) -> bool {
    id == v.root || exists|j: int| 0 <= j < v.mounts.len() && #[trigger] v.mounts[j].root == id
}

pub open spec fn inodes_view(m: Map<InodeId, Inode>) -> Map<InodeId, InodeView> {
    m.map_values(|i: Inode| i@)
}

impl View for VirtualFs {
    type V = FsView;

    closed spec fn view(&self) -> FsView {
        FsView {
            inodes: inodes_view(self.inodes@),
            next_inode: self.next_inode,
            root: self.root_inode,
            fds: self.fds@,
            next_fd: self.next_fd,
            mounts: self.mounts@.map_values(|m: MountEntry| m@),
            max_depth: self.max_symlink_depth,
        }
    }
}

impl Default for VirtualFs {
    fn default() -> (r: Self)
        ensures
            r.wf(),
            r@ == initial_view(),
    {
        Self::new()
    }
}

impl VirtualFs {
    /// What every step inside an operation keeps: directories are sorted and
    /// `view_wf` holds.
    pub closed spec fn inv(&self) -> bool {
        &&& forall|id: InodeId| #[trigger] self.inodes@.contains_key(id) ==> inode_wf(
            self.inodes@[id],
        )
        &&& view_wf(self@)
    }

    /// The filesystem's invariant: `inv`, and the root is a directory that no
    /// directory lists as an entry.
    pub closed spec fn wf(&self) -> bool {
        &&& self.inv()
        &&& root_ok(self@)
    }

    pub proof fn lemma_wf_view(&self)
        requires
            self.wf(),
        ensures
            view_wf(self@),
            root_ok(self@),
    {
    }

    /// A file's contents are held in memory, so their length fits in `usize`.
    pub(crate) proof fn lemma_file_len(&self, id: InodeId)
        ensures
            self@.inodes.contains_key(id) && self@.inodes[id].kind is File
                ==> self@.inodes[id].kind->File_0.len() <= usize::MAX,
    {
        if self.inodes@.contains_key(id) {
            if let InodeKind::File { data } = self.inodes@[id].kind {
                assert(data@.len() == data.len());
            }
        }
    }

    // ---- construction ------------------------------------------------------

    /// Create a new virtual filesystem with a root directory.
    pub fn new() -> (r: Self)
        ensures
            r.wf(),
            r@ == initial_view(),
    {
        let root_id: InodeId = 1;
        let root = Inode::new_dir(root_id, Permissions::all());
        let mut inodes: HashMap<InodeId, Inode> = HashMap::new();
        inodes.insert(root_id, root);
        let r = Self {
            inodes,
            next_inode: 2,
            root_inode: root_id,
            fds: HashMap::new(),
            next_fd: 0,
            mounts: Vec::new(),
            max_symlink_depth: 40,
        };
        assert(r@.inodes =~= initial_view().inodes);
        assert(r@.mounts =~= initial_view().mounts);
        assert(r@ =~= initial_view());
        r
    }

    fn alloc_inode(&mut self) -> (id: InodeId)
        requires
            old(self).inv(),
            old(self)@.next_inode < u64::MAX,
        ensures
            final(self).inv(),
            id == old(self)@.next_inode,
            final(self)@ == (FsView { next_inode: (old(self)@.next_inode + 1) as u64, ..old(self)@ }),
    {
        let id = self.next_inode;
        self.next_inode = self.next_inode + 1;
        assert(self@ =~= (FsView { next_inode: (old(self)@.next_inode + 1) as u64, ..old(self)@ }));
        id
    }

    fn alloc_fd(&mut self) -> (fd: u32)
        requires
            old(self).inv(),
            old(self)@.next_fd < u32::MAX,
        ensures
            final(self).inv(),
            fd == old(self)@.next_fd,
            final(self)@ == (FsView { next_fd: (old(self)@.next_fd + 1) as u32, ..old(self)@ }),
    {
        let fd = self.next_fd;
        self.next_fd = self.next_fd + 1;
        assert(self@ =~= (FsView { next_fd: (old(self)@.next_fd + 1) as u32, ..old(self)@ }));
        fd
    }

    /// Stores `node` under `id`, replacing what was there.
    fn put_inode(&mut self, id: InodeId, node: Inode)
        requires
            old(self).inv(),
            id < old(self)@.next_inode,
            node.id == id,
            inode_wf(node),
            node@.kind is Symlink ==> !is_root_of(old(self)@, id),
        ensures
            final(self).inv(),
            final(self)@ == (FsView { inodes: old(self)@.inodes.insert(id, node@), ..old(self)@ }),
    {
        self.inodes.insert(id, node);
        assert(self@.inodes =~= old(self)@.inodes.insert(id, node@));
        assert(self@ =~= (FsView { inodes: old(self)@.inodes.insert(id, node@), ..old(self)@ }));
        assert(self@.inodes.dom() =~= self.inodes@.dom());
        assert forall|i: InodeId| #[trigger] self@.inodes.contains_key(i) implies self@.inodes[i].id == i
            && i < self@.next_inode by {
            if i != id {
                assert(old(self).inodes@.contains_key(i));
            }
        }
    }

    /// Takes the inode stored under `id` out of the table.
    fn take_inode(&mut self, id: InodeId) -> (node: Inode)
        requires
            old(self).inv(),
            old(self)@.inodes.contains_key(id),
        ensures
            node@ == old(self)@.inodes[id],
            inode_wf(node),
            node.id == id,
            final(self).inv(),
            final(self)@ == (FsView { inodes: old(self)@.inodes.remove(id), ..old(self)@ }),
    {
        let node = self.inodes.remove(&id).unwrap();
        assert(self@.inodes =~= old(self)@.inodes.remove(id));
        assert(self@ =~= (FsView { inodes: old(self)@.inodes.remove(id), ..old(self)@ }));
        assert(self@.inodes.dom() =~= self.inodes@.dom());
        assert forall|i: InodeId| #[trigger] self@.inodes.contains_key(i) implies self@.inodes[i].id == i
            && i < self@.next_inode by {
            assert(old(self).inodes@.contains_key(i));
        }
        node
    }

    /// Drops the inode stored under `id`.
    fn remove_inode(&mut self, id: InodeId)
        requires
            old(self).inv(),
        ensures
            final(self).inv(),
            final(self)@ == (FsView { inodes: old(self)@.inodes.remove(id), ..old(self)@ }),
    {
        self.inodes.remove(&id);
        assert(self@.inodes =~= old(self)@.inodes.remove(id));
        assert(self@ =~= (FsView { inodes: old(self)@.inodes.remove(id), ..old(self)@ }));
        assert(self@.inodes.dom() =~= self.inodes@.dom());
        assert forall|i: InodeId| #[trigger] self@.inodes.contains_key(i) implies self@.inodes[i].id == i
            && i < self@.next_inode by {
            assert(old(self).inodes@.contains_key(i));
        }
    }

    /// Sets the link count of inode `id`.
    fn set_link_count(&mut self, id: InodeId, lc: u32)
        requires
            old(self).inv(),
            old(self)@.inodes.contains_key(id),
        ensures
            final(self).inv(),
            final(self)@ == set_inode(
                old(self)@,
                id,
                InodeView { link_count: lc, ..old(self)@.inodes[id] },
            ),
    {
        let mut node = self.take_inode(id);
        node.link_count = lc;
        self.put_inode(id, node);
        assert(self@ =~= set_inode(old(self)@, id, InodeView { link_count: lc, ..old(self)@.inodes[id] }));
    }

    /// Helper to insert a child entry into the parent directory inode.
    fn insert_child(&mut self, parent_id: InodeId, name: String, child_id: InodeId)
        requires
            old(self).inv(),
            old(self).inodes@.contains_key(parent_id),
        ensures
            final(self).inv(),
            final(self)@ == insert_child_view(old(self)@, parent_id, name@, child_id),
    {
        let ghost nm = name@;
        let mut parent = self.inodes.remove(&parent_id).unwrap();
        let ghost old_parent = parent;
        match &mut parent.kind {
            InodeKind::Directory { children } => {
                entries_insert(children, name, child_id);
            },
            _ => {},
        }
        self.inodes.insert(parent_id, parent);
        proof {
            assert(self.inodes@ =~= old(self).inodes@.insert(parent_id, parent));
            match old_parent.kind {
                InodeKind::Directory { children } => {
                    assert(parent@ == (InodeView {
                        kind: KindView::Directory(kind_view(old_parent.kind)->Directory_0.insert(nm, child_id)),
                        ..old_parent@
                    }));
                    assert(self@.inodes =~= insert_child_view(old(self)@, parent_id, nm, child_id).inodes);
                },
                _ => {
                    assert(self@.inodes =~= old(self)@.inodes);
                },
            }
            assert(self@ =~= insert_child_view(old(self)@, parent_id, nm, child_id));
        }
    }

    /// Helper to remove a child entry from the parent directory inode.
    fn remove_child(&mut self, parent_id: InodeId, name: &String)
        requires
            old(self).inv(),
            old(self).inodes@.contains_key(parent_id),
        ensures
            final(self).inv(),
            final(self)@ == remove_child_view(old(self)@, parent_id, name@),
    {
        let mut parent = self.inodes.remove(&parent_id).unwrap();
        let ghost old_parent = parent;
        match &mut parent.kind {
            InodeKind::Directory { children } => {
                entries_remove(children, name);
            },
            _ => {},
        }
        self.inodes.insert(parent_id, parent);
        proof {
            assert(self.inodes@ =~= old(self).inodes@.insert(parent_id, parent));
            match old_parent.kind {
                InodeKind::Directory { children } => {
                    assert(self@.inodes =~= remove_child_view(old(self)@, parent_id, name@).inodes);
                },
                _ => {
                    assert(self@.inodes =~= old(self)@.inodes);
                },
            }
            assert(self@ =~= remove_child_view(old(self)@, parent_id, name@));
        }
    }

    // ---- queries ------------------------------------------------------------

    /// Get a reference to an inode by its ID.
    pub fn get_inode(&self, id: InodeId) -> (r: Option<&Inode>)
        requires
            self.wf(),
        ensures
            match r {
                Some(i) => self@.inodes.contains_key(id) && i@ == self@.inodes[id],
                None => !self@.inodes.contains_key(id),
            },
    {
        self.inodes.get(&id)
    }

    /// Return total number of inodes.
    pub fn inode_count(&self) -> (n: usize)
        requires
            self.wf(),
        ensures
            n == self@.inodes.len(),
    {
        assert(self@.inodes.dom() =~= self.inodes@.dom());
        self.inodes.len()
    }

    /// The id of the root directory.
    pub fn root_inode(&self) -> (r: InodeId)
        ensures
            r == self@.root,
    {
        self.root_inode
    }
}

} // verus!
