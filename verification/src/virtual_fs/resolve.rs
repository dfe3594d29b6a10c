//! Path resolution and the queries built on it.
use vstd::prelude::*;
use super::VirtualFs;
use crate::directory::{entries_get, entries_names, entries_sorted, lemma_names_are_domain};
use crate::errors::{FsError, FsResult};
use crate::inode::{Inode, InodeId, InodeKind};
use crate::model::{list_dir_spec, lstat_spec, mount_scan, read_link_spec, resolve_follow,
    resolve_no_follow, resolve_spec, stat_spec, walk_spec};
use crate::mount::MountEntry;
use crate::path::{is_dot_or_dotdot, split_path, split_parent, strings_view, trim_end_slashes,
    parent_and_name_spec};
use crate::text::{chars_of, chars_prefix, name_lt};

verus! {

broadcast use vstd::std_specs::hash::group_hash_axioms;

impl VirtualFs {
    /// The mount point that applies to `path` (the longest mount path that,
    /// without trailing slashes, is a prefix of it ending at a component
    /// boundary): its root, and how many
    /// leading components of `path` it takes up. With none, `default` and 0.
    fn resolve_mount_root(&self, path: &str, default: InodeId) -> (r: (InodeId, usize))
        ensures
            r.0 == mount_scan(self@.mounts, path@, self@.mounts.len(), default).1,
            r.1 == mount_scan(self@.mounts, path@, self@.mounts.len(), default).2,
    {
        let pc = chars_of(path);
        let mut found = false;
        let mut best_len: usize = 0;
        let mut best_root = default;
        let mut best_skip: usize = 0;
        let mut k: usize = 0;
        while k < self.mounts.len()
            invariant
                k <= self.mounts@.len(),
                pc@ == path@,
                self@.mounts == self.mounts@.map_values(|m: MountEntry| m@),
                ((if found {
                    best_len + 1
                } else {
                    0
                }) as nat, best_root, best_skip as nat) == mount_scan(
                    self@.mounts,
                    path@,
                    k as nat,
                    default,
                ),
            decreases self.mounts.len() - k,
        {
            let m = &self.mounts[k];
            let mpc = chars_of(m.mount_path.as_str());
            // The mount path without its trailing slashes.
            let mut e: usize = mpc.len();
            assert(mpc@.take(e as int) =~= mpc@);
            while e > 0 && mpc[e - 1] == '/'
                invariant
                    e <= mpc@.len(),
                    trim_end_slashes(mpc@) == trim_end_slashes(mpc@.take(e as int)),
                decreases e,
            {
                assert(mpc@.take(e as int).drop_last() =~= mpc@.take(e - 1));
                e = e - 1;
            }
            proof {
                assert(trim_end_slashes(mpc@.take(e as int)) == mpc@.take(e as int));
            }
            if chars_prefix(&mpc, e, &pc) && (!found || e > best_len) && (pc.len() == e
                || pc[e] == '/') {
                found = true;
                best_len = e;
                best_root = m.root_inode;
                best_skip = match split_path(m.mount_path.as_str()) {
                    Ok(c) => c.len(),
                    Err(_) => 0,
                };
            }
            k = k + 1;
        }
        (best_root, best_skip)
    }

    /// Resolve a path to its inode, following symlinks up to the depth limit.
    fn resolve_path_inner(&self, path: &str, follow_last: bool, depth: u32) -> (r: FsResult<InodeId>)
        requires
            self.wf(),
        ensures
            r == resolve_spec(self@, path@, follow_last, depth as nat),
        decreases 41 - depth, 1int,
    {
        if depth > self.max_symlink_depth {
            return Err(FsError::SymlinkLoop);
        }
        let components = split_path(path)?;
        let ghost comps = strings_view(components@);
        // Check mount points -- longest prefix match; below a mount point only
        // the components after the mount path are walked.
        let (mut current, skip) = self.resolve_mount_root(path, self.root_inode);

        let len = components.len();
        let mut i: usize = skip;
        while i < len
            invariant
                self.wf(),
                depth <= 40,
                len == components@.len(),
                comps == strings_view(components@),
                i <= len || i == skip,
                resolve_spec(self@, path@, follow_last, depth as nat) == walk_spec(
                    self@,
                    comps,
                    i as nat,
                    current,
                    follow_last,
                    depth as nat,
                ),
            decreases len - i,
        {
            let comp = &components[i];
            let is_last = i + 1 == len;

            // Dereference current if symlink
            let inode = match self.inodes.get(&current) {
                Some(n) => n,
                None => return Err(FsError::NotFound),
            };
            if let InodeKind::Symlink { target } = &inode.kind {
                let resolved = self.resolve_symlink_target(target.as_str(), depth)?;
                current = resolved;
            }
            let inode = match self.inodes.get(&current) {
                Some(n) => n,
                None => return Err(FsError::NotFound),
            };
            match &inode.kind {
                InodeKind::Directory { children } => {
                    // "." stays, ".." stays (simplified: root's ".." is root)
                    if !is_dot_or_dotdot(comp) {
                        match entries_get(children, comp) {
                            Some(c) => {
                                current = c;
                            },
                            None => return Err(FsError::NotFound),
                        }
                    }
                },
                // A file or symlink has no entries to look `comp` up in.
                _ => return Err(FsError::NotADirectory),
            }

            // Follow symlink at last component if requested
            if is_last {
                let node = match self.inodes.get(&current) {
                    Some(n) => n,
                    None => return Err(FsError::NotFound),
                };
                if follow_last {
                    if let InodeKind::Symlink { target } = &node.kind {
                        return self.resolve_symlink_target(target.as_str(), depth);
                    }
                }
            }
            i = i + 1;
        }
        Ok(current)
    }

    fn resolve_symlink_target(&self, target: &str, depth: u32) -> (r: FsResult<InodeId>)
        requires
            self.wf(),
            depth <= 40,
        ensures
            r == resolve_spec(self@, target@, true, depth as nat + 1),
        decreases 41 - depth, 0int,
    {
        self.resolve_path_inner(target, true, depth + 1)
    }

    /// Resolve path following symlinks on the last component.
    pub fn resolve_path(&self, path: &str) -> (r: FsResult<InodeId>)
        requires
            self.wf(),
        ensures
            r == resolve_follow(self@, path@),
    {
        self.resolve_path_inner(path, true, 0)
    }

    /// Resolve path WITHOUT following the last symlink.
    pub fn resolve_path_no_follow(&self, path: &str) -> (r: FsResult<InodeId>)
        requires
            self.wf(),
        ensures
            r == resolve_no_follow(self@, path@),
    {
        self.resolve_path_inner(path, false, 0)
    }

    /// Split a path into (parent dir path, basename).
    pub fn parent_and_name(path: &str) -> (r: FsResult<(String, String)>)
        ensures
            match (r, parent_and_name_spec(path@)) {
                (Ok((p, n)), Ok((sp, sn))) => p@ == sp && n@ == sn,
                (Err(e1), Err(e2)) => e1 == e2,
                _ => false,
            },
    {
        split_parent(path)
    }

    /// Get a reference to the inode at the given path.
    pub fn stat(&self, path: &str) -> (r: FsResult<&Inode>)
        requires
            self.wf(),
        ensures
            match r {
                Ok(i) => stat_spec(self@, path@) == Ok::<_, FsError>(i@),
                Err(e) => stat_spec(self@, path@) == Err::<crate::inode::InodeView, _>(e),
            },
    {
        let id = self.resolve_path(path)?;
        match self.inodes.get(&id) {
            Some(i) => Ok(i),
            None => Err(FsError::NotFound),
        }
    }

    /// Same as `stat` but does not follow the final symlink.
    pub fn lstat(&self, path: &str) -> (r: FsResult<&Inode>)
        requires
            self.wf(),
        ensures
            match r {
                Ok(i) => lstat_spec(self@, path@) == Ok::<_, FsError>(i@),
                Err(e) => lstat_spec(self@, path@) == Err::<crate::inode::InodeView, _>(e),
            },
    {
        let id = self.resolve_path_no_follow(path)?;
        match self.inodes.get(&id) {
            Some(i) => Ok(i),
            None => Err(FsError::NotFound),
        }
    }

    /// List names in a directory, in increasing order.
    pub fn list_dir(&self, path: &str) -> (r: FsResult<Vec<String>>)
        requires
            self.wf(),
        ensures
            match (r, list_dir_spec(self@, path@)) {
                (Ok(names), Ok(set)) => {
                    &&& strings_view(names@).to_set() == set
                    &&& forall|i: int, j: int|
                        0 <= i < j < names@.len() ==> name_lt(
                            #[trigger] names@[i]@,
                            #[trigger] names@[j]@,
                        )
                },
                (Err(e1), Err(e2)) => e1 == e2,
                _ => false,
            },
    {
        let id = self.resolve_path(path)?;
        let inode = match self.inodes.get(&id) {
            Some(n) => n,
            None => return Err(FsError::NotFound),
        };
        if !inode.permissions.read {
            return Err(FsError::PermissionDenied);
        }
        match &inode.kind {
            InodeKind::Directory { children } => {
                let mut names: Vec<String> = Vec::new();
                let mut k: usize = 0;
                while k < children.len()
                    invariant
                        k <= children@.len(),
                        names@.len() == k,
                        forall|j: int| 0 <= j < k ==> #[trigger] names@[j]@ == children@[j].name@,
                    decreases children.len() - k,
                {
                    names.push(children[k].name.clone());
                    k = k + 1;
                }
                proof {
                    assert(entries_sorted(children@));
                    assert(strings_view(names@) =~= entries_names(children@));
                    lemma_names_are_domain(children@);
                }
                Ok(names)
            },
            _ => Err(FsError::NotADirectory),
        }
    }

    /// Read the target of a symlink without following it.
    pub fn read_link(&self, path: &str) -> (r: FsResult<String>)
        requires
            self.wf(),
        ensures
            match (r, read_link_spec(self@, path@)) {
                (Ok(t), Ok(st)) => t@ == st,
                (Err(e1), Err(e2)) => e1 == e2,
                _ => false,
            },
    {
        let id = self.resolve_path_no_follow(path)?;
        let inode = match self.inodes.get(&id) {
            Some(n) => n,
            None => return Err(FsError::NotFound),
        };
        match &inode.kind {
            InodeKind::Symlink { target } => Ok(target.clone()),
            _ => Err(FsError::NotASymlink),
        }
    }

    /// Check if a path exists.
    pub fn path_exists(&self, path: &str) -> (r: bool)
        requires
            self.wf(),
        ensures
            r == resolve_follow(self@, path@) is Ok,
    {
        self.resolve_path(path).is_ok()
    }
}

} // verus!
