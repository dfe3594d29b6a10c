//! Creating, removing, renaming and linking names.
use vstd::prelude::*;
use super::VirtualFs;
use crate::directory::{entries_contains, entries_get, entries_map};
use crate::errors::{FsError, FsResult};
use crate::inode::{Inode, InodeId, InodeKind};
use crate::model::{create_file_spec, create_fits, create_symlink_spec, hard_link_fits,
    hard_link_spec, mkdir_fits, mkdir_p_spec, mkdir_p_steps, mkdir_spec, perms_all,
    perms_read_write, rename_spec, rmdir_spec, unlink_spec, validate_create_spec,
    validate_remove_spec};
use crate::path::{split_path, strings_view};
use crate::permissions::Permissions;

verus! {

broadcast use vstd::std_specs::hash::group_hash_axioms;

impl VirtualFs {
    /// Validate the parent exists, is a writable directory, and the child
    /// name does not yet exist. Returns `(parent_id, name)`.
    fn validate_parent_for_create(&self, path: &str) -> (r: FsResult<(InodeId, String)>)
        requires
            self.wf(),
        ensures
            match (r, validate_create_spec(self@, path@)) {
                (Ok((p, n)), Ok((sp, sn))) => p == sp && n@ == sn,
                (Err(e1), Err(e2)) => e1 == e2,
                _ => false,
            },
    {
        let (parent_path, name) = Self::parent_and_name(path)?;
        let parent_id = self.resolve_path(parent_path.as_str())?;

        let parent = match self.inodes.get(&parent_id) {
            Some(p) => p,
            None => return Err(FsError::NotFound),
        };
        if !parent.permissions.write {
            return Err(FsError::PermissionDenied);
        }
        let children = match &parent.kind {
            InodeKind::Directory { children } => children,
            _ => return Err(FsError::NotADirectory),
        };
        if entries_contains(children, &name) {
            return Err(FsError::AlreadyExists);
        }
        Ok((parent_id, name))
    }

    /// Validate the parent exists, is a writable directory, and the child
    /// name exists. Returns `(parent_id, child_name, child_id)`.
    fn validate_parent_for_remove(&self, path: &str) -> (r: FsResult<(InodeId, String, InodeId)>)
        requires
            self.wf(),
        ensures
            match (r, validate_remove_spec(self@, path@)) {
                (Ok((p, n, c)), Ok((sp, sn, sc))) => p == sp && n@ == sn && c == sc,
                (Err(e1), Err(e2)) => e1 == e2,
                _ => false,
            },
    {
        let (parent_path, name) = Self::parent_and_name(path)?;
        let parent_id = self.resolve_path(parent_path.as_str())?;

        let parent = match self.inodes.get(&parent_id) {
            Some(p) => p,
            None => return Err(FsError::NotFound),
        };
        if !parent.permissions.write {
            return Err(FsError::PermissionDenied);
        }
        let children = match &parent.kind {
            InodeKind::Directory { children } => children,
            _ => return Err(FsError::NotADirectory),
        };
        let child_id = match entries_get(children, &name) {
            Some(c) => c,
            None => return Err(FsError::NotFound),
        };
        Ok((parent_id, name, child_id))
    }

    // ---- creation -----------------------------------------------------------

    /// Create a directory at the given absolute path.
    pub fn mkdir(&mut self, path: &str) -> (r: FsResult<InodeId>)
        requires
            old(self).wf(),
            mkdir_fits(old(self)@, path@),
        ensures
            final(self).wf(),
            r == mkdir_spec(old(self)@, path@, perms_all()).0,
            final(self)@ == mkdir_spec(old(self)@, path@, perms_all()).1,
    {
        self.mkdir_with_perms(path, Permissions::all())
    }

    /// Create a directory with explicit permissions.
    pub fn mkdir_with_perms(&mut self, path: &str, perms: Permissions) -> (r: FsResult<InodeId>)
        requires
            old(self).wf(),
            mkdir_fits(old(self)@, path@),
        ensures
            final(self).wf(),
            r == mkdir_spec(old(self)@, path@, perms).0,
            final(self)@ == mkdir_spec(old(self)@, path@, perms).1,
    {
        let (parent_id, name) = self.validate_parent_for_create(path)?;
        let ghost v0 = self@;

        let new_id = self.alloc_inode();
        let new_dir = Inode::new_dir(new_id, perms);
        self.put_inode(new_id, new_dir);
        assert(self@.inodes.contains_key(parent_id));

        self.insert_child(parent_id, name, new_id);
        let ghost v2 = self@;
        assert(self@.inodes.contains_key(parent_id));
        assert(v2.inodes[parent_id].link_count == v0.inodes[parent_id].link_count);
        let lc = self.inodes.get(&parent_id).unwrap().link_count;
        self.set_link_count(parent_id, lc + 1);
        proof {
            assert(self@ =~= mkdir_spec(v0, path@, perms).1);
        }
        Ok(new_id)
    }

    /// Create an empty file at the given path.
    pub fn create_file(&mut self, path: &str) -> (r: FsResult<InodeId>)
        requires
            old(self).wf(),
            create_fits(old(self)@, path@),
        ensures
            final(self).wf(),
            r == create_file_spec(old(self)@, path@, perms_read_write()).0,
            final(self)@ == create_file_spec(old(self)@, path@, perms_read_write()).1,
    {
        self.create_file_with_perms(path, Permissions::read_write())
    }

    /// Create an empty file with explicit permissions.
    pub fn create_file_with_perms(&mut self, path: &str, perms: Permissions) -> (r: FsResult<InodeId>)
        requires
            old(self).wf(),
            create_fits(old(self)@, path@),
        ensures
            final(self).wf(),
            r == create_file_spec(old(self)@, path@, perms).0,
            final(self)@ == create_file_spec(old(self)@, path@, perms).1,
    {
        let (parent_id, name) = self.validate_parent_for_create(path)?;

        let new_id = self.alloc_inode();
        let new_file = Inode::new_file(new_id, perms);
        self.put_inode(new_id, new_file);

        self.insert_child(parent_id, name, new_id);

        Ok(new_id)
    }

    /// Create a symlink at `link_path` pointing to `target`.
    pub fn create_symlink(&mut self, link_path: &str, target: &str) -> (r: FsResult<InodeId>)
        requires
            old(self).wf(),
            create_fits(old(self)@, link_path@),
        ensures
            final(self).wf(),
            r == create_symlink_spec(old(self)@, link_path@, target@).0,
            final(self)@ == create_symlink_spec(old(self)@, link_path@, target@).1,
    {
        let (parent_id, name) = self.validate_parent_for_create(link_path)?;

        let new_id = self.alloc_inode();
        let symlink = Inode::new_symlink(new_id, target.to_owned(), Permissions::all());
        self.put_inode(new_id, symlink);

        self.insert_child(parent_id, name, new_id);

        Ok(new_id)
    }

    // ---- removal ------------------------------------------------------------

    /// Remove a file or symlink. Fails on directories.
    pub fn unlink(&mut self, path: &str) -> (r: FsResult<()>)
        requires
            old(self).wf(),
        ensures
            final(self).wf(),
            r == unlink_spec(old(self)@, path@).0,
            final(self)@ == unlink_spec(old(self)@, path@).1,
    {
        let (parent_id, name, child_id) = self.validate_parent_for_remove(path)?;

        let child = match self.inodes.get(&child_id) {
            Some(c) => c,
            None => return Err(FsError::NotFound),
        };
        if child.is_dir() {
            return Err(FsError::IsADirectory);
        }

        self.remove_child(parent_id, &name);
        assert(self@.inodes.contains_key(child_id));

        // Decrement link count; remove inode if zero
        let lc = self.inodes.get(&child_id).unwrap().link_count.saturating_sub(1);
        if lc == 0 {
            self.remove_inode(child_id);
        } else {
            self.set_link_count(child_id, lc);
        }
        Ok(())
    }

    /// Remove an empty directory.
    pub fn rmdir(&mut self, path: &str) -> (r: FsResult<()>)
        requires
            old(self).wf(),
        ensures
            final(self).wf(),
            r == rmdir_spec(old(self)@, path@).0,
            final(self)@ == rmdir_spec(old(self)@, path@).1,
    {
        let (parent_id, name, child_id) = self.validate_parent_for_remove(path)?;

        let child = match self.inodes.get(&child_id) {
            Some(c) => c,
            None => return Err(FsError::NotFound),
        };
        match &child.kind {
            InodeKind::Directory { children } => {
                if children.len() != 0 {
                    proof {
                        crate::directory::lemma_entries_map_at(children@, 0);
                        assert(entries_map(children@).dom().contains(children@[0].name@));
                    }
                    return Err(FsError::NotEmpty);
                }
                assert(entries_map(children@).dom() =~= Set::empty());
            },
            _ => return Err(FsError::NotADirectory),
        }

        self.remove_child(parent_id, &name);
        assert(self@.inodes.contains_key(parent_id));
        let lc = self.inodes.get(&parent_id).unwrap().link_count.saturating_sub(1);
        self.set_link_count(parent_id, lc);

        self.remove_inode(child_id);
        Ok(())
    }

    // ---- rename -------------------------------------------------------------

    /// Rename / move a file or directory.
    pub fn rename(&mut self, old_path: &str, new_path: &str) -> (r: FsResult<()>)
        requires
            old(self).wf(),
        ensures
            final(self).wf(),
            r == rename_spec(old(self)@, old_path@, new_path@).0,
            final(self)@ == rename_spec(old(self)@, old_path@, new_path@).1,
    {
        let (old_parent_path, old_name) = Self::parent_and_name(old_path)?;
        let (new_parent_path, new_name) = Self::parent_and_name(new_path)?;

        let old_parent_id = self.resolve_path(old_parent_path.as_str())?;
        let new_parent_id = self.resolve_path(new_parent_path.as_str())?;

        // Get child id from old parent
        let old_parent = match self.inodes.get(&old_parent_id) {
            Some(p) => p,
            None => return Err(FsError::NotFound),
        };
        let child_id = match &old_parent.kind {
            InodeKind::Directory { children } => match entries_get(children, &old_name) {
                Some(c) => c,
                None => return Err(FsError::NotFound),
            },
            _ => return Err(FsError::NotADirectory),
        };

        // Check new parent is dir and new name doesn't already exist
        let new_parent = match self.inodes.get(&new_parent_id) {
            Some(p) => p,
            None => return Err(FsError::NotFound),
        };
        match &new_parent.kind {
            InodeKind::Directory { children } => {
                if entries_contains(children, &new_name) {
                    return Err(FsError::AlreadyExists);
                }
            },
            _ => return Err(FsError::NotADirectory),
        }

        // Remove from old parent, add to new parent
        self.remove_child(old_parent_id, &old_name);
        assert(self.inodes@.dom() =~= self@.inodes.dom());
        self.insert_child(new_parent_id, new_name, child_id);

        Ok(())
    }

    // ---- hard links ---------------------------------------------------------

    /// Create a hard link: `new_path` will point to the same inode as
    /// `existing_path`.
    pub fn hard_link(&mut self, existing_path: &str, new_path: &str) -> (r: FsResult<()>)
        requires
            old(self).wf(),
            hard_link_fits(old(self)@, existing_path@, new_path@),
        ensures
            final(self).wf(),
            r == hard_link_spec(old(self)@, existing_path@, new_path@).0,
            final(self)@ == hard_link_spec(old(self)@, existing_path@, new_path@).1,
    {
        let existing_id = self.resolve_path(existing_path)?;
        let inode = match self.inodes.get(&existing_id) {
            Some(n) => n,
            None => return Err(FsError::NotFound),
        };
        if inode.is_dir() {
            return Err(FsError::IsADirectory);
        }

        let (parent_path, name) = Self::parent_and_name(new_path)?;
        let parent_id = self.resolve_path(parent_path.as_str())?;

        let parent = match self.inodes.get(&parent_id) {
            Some(p) => p,
            None => return Err(FsError::NotFound),
        };
        match &parent.kind {
            InodeKind::Directory { children } => {
                if entries_contains(children, &name) {
                    return Err(FsError::AlreadyExists);
                }
            },
            _ => return Err(FsError::NotADirectory),
        }

        // Add reference
        let ghost v0 = self@;
        self.insert_child(parent_id, name, existing_id);
        assert(self@.inodes[existing_id] == v0.inodes[existing_id]);

        // Increment link count
        let lc = self.inodes.get(&existing_id).unwrap().link_count;
        self.set_link_count(existing_id, lc + 1);

        Ok(())
    }

    // ---- mkdir_p (recursive) ------------------------------------------------

    /// Recursively create directories (like `mkdir -p`).
    pub fn mkdir_p(&mut self, path: &str) -> (r: FsResult<InodeId>)
        requires
            old(self).wf(),
            mkdir_p_spec(old(self)@, path@) is Some,
        ensures
            final(self).wf(),
            r == mkdir_p_spec(old(self)@, path@)->Some_0.0,
            final(self)@ == mkdir_p_spec(old(self)@, path@)->Some_0.1,
    {
        let components = split_path(path)?;
        let ghost comps = strings_view(components@);
        let ghost spec_out = mkdir_p_spec(old(self)@, path@);
        let mut current_path = String::new();
        let mut last_id = self.root_inode;
        proof {
            reveal_strlit("/");
            assert(current_path@ =~= Seq::<char>::empty());
        }

        let mut i: usize = 0;
        while i < components.len()
            invariant
                self.wf(),
                comps == strings_view(components@),
                i <= components@.len(),
                spec_out == mkdir_p_steps(self@, comps, i as nat, current_path@, last_id),
                spec_out is Some,
                spec_out == mkdir_p_spec(old(self)@, path@),
            decreases components.len() - i,
        {
            let comp = &components[i];
            let ghost prefix = current_path@;
            proof { reveal_strlit("/"); }
            current_path.append("/");
            current_path.append(comp.as_str());
            assert(current_path@ =~= prefix + seq!['/'] + comps[i as int]);

            match self.resolve_path(current_path.as_str()) {
                Ok(id) => {
                    let inode = match self.inodes.get(&id) {
                        Some(n) => n,
                        None => {
                            assert(!self@.inodes.contains_key(id));
                            return Err(FsError::NotFound);
                        },
                    };
                    if !inode.is_dir() {
                        return Err(FsError::NotADirectory);
                    }
                    last_id = id;
                },
                Err(FsError::NotFound) => {
                    last_id = self.mkdir(current_path.as_str())?;
                },
                Err(e) => return Err(e),
            }
            i = i + 1;
        }

        Ok(last_id)
    }
}

} // verus!
