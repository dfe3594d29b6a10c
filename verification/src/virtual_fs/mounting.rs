//! Mounting and unmounting sub-filesystems.
use vstd::prelude::*;
use super::VirtualFs;
use crate::directory::entries_map;
use crate::errors::{FsError, FsResult};
use crate::inode::{Inode, InodeKind};
use crate::model::{mount_fits, mount_paths, mount_spec, unmount_spec};
use crate::mount::MountEntry;
use crate::permissions::Permissions;

verus! {

broadcast use vstd::std_specs::hash::group_hash_axioms;

impl VirtualFs {
    /// Mount a new empty filesystem at the given path. The path must point
    /// to an existing empty directory.
    pub fn mount(&mut self, mount_path: &str, label: &str) -> (r: FsResult<()>)
        requires
            old(self).wf(),
            mount_fits(old(self)@, mount_path@),
        ensures
            final(self).wf(),
            r == mount_spec(old(self)@, mount_path@, label@).0,
            final(self)@ == mount_spec(old(self)@, mount_path@, label@).1,
    {
        let id = self.resolve_path(mount_path)?;
        let inode = match self.inodes.get(&id) {
            Some(n) => n,
            None => return Err(FsError::NotFound),
        };
        match &inode.kind {
            InodeKind::Directory { children } => {
                if children.len() != 0 {
                    proof {
                        crate::directory::lemma_entries_map_at(children@, 0);
                        assert(entries_map(children@).dom().contains(children@[0].name@));
                    }
                    return Err(FsError::MountPointNotEmpty);
                }
                assert(entries_map(children@).dom() =~= Set::empty());
            },
            _ => return Err(FsError::NotADirectory),
        }

        // Create a new root inode for the mounted FS
        let mount_root_id = self.alloc_inode();
        let mount_root = Inode::new_dir(mount_root_id, Permissions::all());
        self.put_inode(mount_root_id, mount_root);

        let entry = MountEntry {
            mount_path: mount_path.to_owned(),
            root_inode: mount_root_id,
            label: label.to_owned(),
        };
        let ghost v1 = self@;
        self.mounts.push(entry);
        proof {
            assert(self@.mounts =~= v1.mounts.push(entry@));
            assert(self@ =~= mount_spec(old(self)@, mount_path@, label@).1);
        }
        Ok(())
    }

    /// Unmount the filesystem at the given path.
    pub fn unmount(&mut self, mount_path: &str) -> (r: FsResult<()>)
        requires
            old(self).wf(),
        ensures
            final(self).wf(),
            r == unmount_spec(old(self)@, mount_path@).0,
            final(self)@ == unmount_spec(old(self)@, mount_path@).1,
    {
        let target = mount_path.to_owned();
        let ghost paths = mount_paths(self@.mounts);
        proof {
            paths.index_of_first_ensures(mount_path@);
        }
        let mut idx: usize = 0;
        while idx < self.mounts.len()
            invariant
                idx <= self.mounts@.len(),
                self.mounts@.len() == paths.len(),
                paths == mount_paths(self@.mounts),
                target@ == mount_path@,
                forall|j: int| 0 <= j < idx ==> paths[j] != mount_path@,
            ensures
                idx == self.mounts@.len() || paths[idx as int] == mount_path@,
            decreases self.mounts.len() - idx,
        {
            if self.mounts[idx].mount_path.eq(&target) {
                break;
            }
            idx = idx + 1;
        }
        if idx == self.mounts.len() {
            assert(!paths.contains(mount_path@));
            return Err(FsError::MountPointNotFound);
        }
        assert(paths[idx as int] == mount_path@);
        assert(paths.index_of_first(mount_path@) == Some(idx as int));
        self.mounts.remove(idx);
        assert(self@ =~= unmount_spec(old(self)@, mount_path@).1);
        Ok(())
    }

    /// List current mounts.
    pub fn list_mounts(&self) -> (r: &[MountEntry])
        ensures
            r@.map_values(|m: MountEntry| m@) == self@.mounts,
    {
        self.mounts.as_slice()
    }
}

} // verus!
