//! File contents: whole-file reads and writes, truncation, permissions, and
//! access through file descriptors.
use vstd::prelude::*;
use super::VirtualFs;
use crate::errors::{FsError, FsResult};
use crate::fd::{FileDescriptor, OpenMode};
use crate::inode::InodeKind;
use crate::model::{FsView, chmod_spec, close_spec, open_fits, open_spec, read_file_spec,
    read_spec, resize_spec, seek_spec, tell_spec, truncate_fits, truncate_spec,
    write_at, write_file_spec, write_fits, write_spec};
use crate::permissions::Permissions;
use crate::text::copy_range;

verus! {

broadcast use vstd::std_specs::hash::group_hash_axioms;

impl VirtualFs {
    /// Stores `d` as descriptor `d.fd`.
    fn put_fd(&mut self, d: FileDescriptor)
        requires
            old(self).wf(),
            d.fd < old(self)@.next_fd,
        ensures
            final(self).wf(),
            final(self)@ == (FsView { fds: old(self)@.fds.insert(d.fd, d), ..old(self)@ }),
    {
        self.fds.insert(d.fd, d);
        assert(self@ =~= (FsView { fds: old(self)@.fds.insert(d.fd, d), ..old(self)@ }));
    }

    // ---- direct read/write (no fd) -----------------------------------------

    /// Write raw bytes directly to a file inode (overwrites).
    pub fn write_file(&mut self, path: &str, data: &[u8]) -> (r: FsResult<()>)
        requires
            old(self).wf(),
        ensures
            final(self).wf(),
            r == write_file_spec(old(self)@, path@, data@).0,
            final(self)@ == write_file_spec(old(self)@, path@, data@).1,
    {
        let id = self.resolve_path(path)?;
        let inode = match self.inodes.get(&id) {
            Some(n) => n,
            None => return Err(FsError::NotFound),
        };
        if !inode.permissions.write {
            return Err(FsError::PermissionDenied);
        }
        if !inode.is_file() {
            return Err(FsError::IsADirectory);
        }
        let mut node = self.take_inode(id);
        node.kind = InodeKind::File { data: copy_range(data, 0, data.len()) };
        node.size = data.len() as u64;
        proof {
            assert(data@.subrange(0, data@.len() as int) =~= data@);
        }
        self.put_inode(id, node);
        assert(self@ =~= write_file_spec(old(self)@, path@, data@).1);
        Ok(())
    }

    /// Read all bytes from a file inode.
    pub fn read_file(&self, path: &str) -> (r: FsResult<Vec<u8>>)
        requires
            self.wf(),
        ensures
            match (r, read_file_spec(self@, path@)) {
                (Ok(d), Ok(sd)) => d@ == sd,
                (Err(e1), Err(e2)) => e1 == e2,
                _ => false,
            },
    {
        let id = self.resolve_path(path)?;
        let inode = match self.inodes.get(&id) {
            Some(n) => n,
            None => return Err(FsError::NotFound),
        };
        if !inode.permissions.read {
            return Err(FsError::PermissionDenied);
        }
        match &inode.kind {
            InodeKind::File { data } => {
                let r = copy_range(data.as_slice(), 0, data.len());
                assert(data@.subrange(0, data@.len() as int) =~= data@);
                Ok(r)
            },
            _ => Err(FsError::IsADirectory),
        }
    }

    // ---- truncate -----------------------------------------------------------

    /// Truncate a file to the given size.
    pub fn truncate(&mut self, path: &str, size: u64) -> (r: FsResult<()>)
        requires
            old(self).wf(),
            truncate_fits(old(self)@, path@, size),
        ensures
            final(self).wf(),
            r == truncate_spec(old(self)@, path@, size).0,
            final(self)@ == truncate_spec(old(self)@, path@, size).1,
    {
        let id = self.resolve_path(path)?;
        let inode = match self.inodes.get(&id) {
            Some(n) => n,
            None => return Err(FsError::NotFound),
        };
        if !inode.permissions.write {
            return Err(FsError::PermissionDenied);
        }
        if !inode.is_file() {
            return Err(FsError::IsADirectory);
        }
        let mut node = self.take_inode(id);
        let ghost old_data = node.kind->File_data@;
        match &mut node.kind {
            InodeKind::File { data } => {
                data.resize(size as usize, 0);
            },
            _ => {},
        }
        node.size = size;
        proof {
            let nd = node.kind->File_data@;
            assert forall|i: int| 0 <= i < size implies nd[i] == resize_spec(old_data, size as nat)[i] by {
                if i >= old_data.len() {
                    assert(vstd::pervasive::cloned(0u8, nd[i]));
                } else if size as int > old_data.len() {
                    assert(nd.subrange(0, old_data.len() as int)[i] == nd[i]);
                }
            }
            assert(nd =~= resize_spec(old_data, size as nat));
        }
        self.put_inode(id, node);
        assert(self@ =~= truncate_spec(old(self)@, path@, size).1);
        Ok(())
    }

    // ---- permissions --------------------------------------------------------

    /// Change permissions of the inode at `path`.
    pub fn chmod(&mut self, path: &str, perms: Permissions) -> (r: FsResult<()>)
        requires
            old(self).wf(),
        ensures
            final(self).wf(),
            r == chmod_spec(old(self)@, path@, perms).0,
            final(self)@ == chmod_spec(old(self)@, path@, perms).1,
    {
        let id = self.resolve_path(path)?;
        if self.inodes.get(&id).is_none() {
            return Err(FsError::NotFound);
        }
        let mut node = self.take_inode(id);
        node.permissions = perms;
        self.put_inode(id, node);
        assert(self@ =~= chmod_spec(old(self)@, path@, perms).1);
        Ok(())
    }

    // ---- file descriptors ---------------------------------------------------

    /// Open a file and return a file descriptor number.
    pub fn open(&mut self, path: &str, mode: OpenMode) -> (r: FsResult<u32>)
        requires
            old(self).wf(),
            open_fits(old(self)@, path@, mode),
        ensures
            final(self).wf(),
            r == open_spec(old(self)@, path@, mode).0,
            final(self)@ == open_spec(old(self)@, path@, mode).1,
    {
        let id = self.resolve_path(path)?;
        let inode = match self.inodes.get(&id) {
            Some(n) => n,
            None => return Err(FsError::NotFound),
        };

        if inode.is_dir() {
            return Err(FsError::IsADirectory);
        }

        // Permission check
        match mode {
            OpenMode::Read => {
                if !inode.permissions.read {
                    return Err(FsError::PermissionDenied);
                }
            },
            OpenMode::Write | OpenMode::Append => {
                if !inode.permissions.write {
                    return Err(FsError::PermissionDenied);
                }
            },
            OpenMode::ReadWrite => {
                if !inode.permissions.read || !inode.permissions.write {
                    return Err(FsError::PermissionDenied);
                }
            },
        }

        let file_size = inode.size;

        let fd_num = self.alloc_fd();
        let offset = if mode == OpenMode::Append {
            file_size
        } else {
            0
        };

        self.put_fd(FileDescriptor { fd: fd_num, inode_id: id, mode, offset });
        assert(self@ =~= open_spec(old(self)@, path@, mode).1);
        Ok(fd_num)
    }

    /// Close a file descriptor.
    pub fn close(&mut self, fd: u32) -> (r: FsResult<()>)
        requires
            old(self).wf(),
        ensures
            final(self).wf(),
            r == close_spec(old(self)@, fd).0,
            final(self)@ == close_spec(old(self)@, fd).1,
    {
        match self.fds.remove(&fd) {
            Some(_) => {
                assert(self@ =~= close_spec(old(self)@, fd).1);
                Ok(())
            },
            None => {
                assert(self@ =~= old(self)@);
                Err(FsError::InvalidFileDescriptor)
            },
        }
    }

    /// Read up to `len` bytes from an open file descriptor.
    pub fn read(&mut self, fd: u32, len: usize) -> (r: FsResult<Vec<u8>>)
        requires
            old(self).wf(),
        ensures
            final(self).wf(),
            match (r, read_spec(old(self)@, fd, len as nat).0) {
                (Ok(d), Ok(sd)) => d@ == sd,
                (Err(e1), Err(e2)) => e1 == e2,
                _ => false,
            },
            final(self)@ == read_spec(old(self)@, fd, len as nat).1,
    {
        let fd_entry = match self.fds.get(&fd) {
            Some(e) => *e,
            None => return Err(FsError::InvalidFileDescriptor),
        };
        if fd_entry.mode == OpenMode::Write || fd_entry.mode == OpenMode::Append {
            return Err(FsError::WriteOnly);
        }
        let inode_id = fd_entry.inode_id;
        let offset64 = fd_entry.offset;

        let inode = match self.inodes.get(&inode_id) {
            Some(n) => n,
            None => return Err(FsError::NotFound),
        };
        let data = match &inode.kind {
            InodeKind::File { data } => data,
            _ => return Err(FsError::IsADirectory),
        };

        // A descriptor past the end reads nothing and moves back to the end.
        if (data.len() as u64) <= offset64 {
            let end = data.len();
            self.put_fd(FileDescriptor { offset: end as u64, ..fd_entry });
            assert(self@ =~= read_spec(old(self)@, fd, len as nat).1);
            return Ok(Vec::new());
        }
        let offset = offset64 as usize;
        let end = if data.len() - offset < len {
            data.len()
        } else {
            offset + len
        };
        let result = copy_range(data.as_slice(), offset, end);

        // Advance offset
        self.put_fd(FileDescriptor { offset: end as u64, ..fd_entry });
        assert(self@ =~= read_spec(old(self)@, fd, len as nat).1);
        Ok(result)
    }

    /// Write bytes through a file descriptor.
    pub fn write(&mut self, fd: u32, buf: &[u8]) -> (r: FsResult<usize>)
        requires
            old(self).wf(),
            write_fits(old(self)@, fd, buf@.len()),
        ensures
            final(self).wf(),
            r == write_spec(old(self)@, fd, buf@).0,
            final(self)@ == write_spec(old(self)@, fd, buf@).1,
    {
        let fd_entry = match self.fds.get(&fd) {
            Some(e) => *e,
            None => return Err(FsError::InvalidFileDescriptor),
        };
        if fd_entry.mode == OpenMode::Read {
            return Err(FsError::ReadOnly);
        }
        let inode_id = fd_entry.inode_id;
        let offset = fd_entry.offset as usize;

        match self.inodes.get(&inode_id) {
            Some(n) => {
                if !n.is_file() {
                    return Err(FsError::IsADirectory);
                }
            },
            None => return Err(FsError::NotFound),
        }

        let mut node = self.take_inode(inode_id);
        let ghost old_data = node.kind->File_data@;
        let n = buf.len();
        let mut new_len: usize = 0;
        match &mut node.kind {
            InodeKind::File { data } => {
                // Extend if necessary
                let needed = offset + n;
                if needed > data.len() {
                    data.resize(needed, 0);
                }
                let ghost base = data@;
                proof {
                    assert forall|i: int| 0 <= i < base.len() implies base[i] == (if i < old_data.len() {
                        old_data[i]
                    } else {
                        0u8
                    }) by {
                        if i >= old_data.len() {
                            assert(vstd::pervasive::cloned(0u8, base[i]));
                        } else if base.len() > old_data.len() {
                            assert(base.subrange(0, old_data.len() as int)[i] == base[i]);
                        }
                    }
                }
                let mut k: usize = 0;
                while k < n
                    invariant
                        n == buf@.len(),
                        offset + n <= data@.len(),
                        offset + n <= usize::MAX,
                        data@.len() == base.len(),
                        k <= n,
                        forall|i: int|
                            0 <= i < data@.len() ==> #[trigger] data@[i] == (if offset <= i < offset
                                + k {
                                buf@[i - offset]
                            } else {
                                base[i]
                            }),
                    decreases n - k,
                {
                    data.set(offset + k, buf[k]);
                    k = k + 1;
                }
                new_len = data.len();
                proof {
                    let nd = data@;
                    let sd = write_at(old_data, offset as int, buf@);
                    assert forall|i: int| 0 <= i < nd.len() implies nd[i] == sd[i] by {
                        assert(base[i] == (if i < old_data.len() { old_data[i] } else { 0u8 }));
                    }
                    assert(nd =~= sd);
                }
            },
            _ => {},
        }
        node.size = new_len as u64;
        self.put_inode(inode_id, node);

        // Advance offset
        self.put_fd(FileDescriptor { offset: (offset + n) as u64, ..fd_entry });
        assert(self@ =~= write_spec(old(self)@, fd, buf@).1);
        Ok(n)
    }

    /// Seek a file descriptor to a given offset.
    pub fn seek(&mut self, fd: u32, offset: u64) -> (r: FsResult<()>)
        requires
            old(self).wf(),
        ensures
            final(self).wf(),
            r == seek_spec(old(self)@, fd, offset).0,
            final(self)@ == seek_spec(old(self)@, fd, offset).1,
    {
        let fd_entry = match self.fds.get(&fd) {
            Some(e) => *e,
            None => return Err(FsError::InvalidFileDescriptor),
        };
        self.put_fd(FileDescriptor { offset, ..fd_entry });
        assert(self@ =~= seek_spec(old(self)@, fd, offset).1);
        Ok(())
    }

    /// Get current offset of a file descriptor.
    pub fn tell(&self, fd: u32) -> (r: FsResult<u64>)
        requires
            self.wf(),
        ensures
            r == tell_spec(self@, fd),
    {
        match self.fds.get(&fd) {
            Some(e) => Ok(e.offset),
            None => Err(FsError::InvalidFileDescriptor),
        }
    }
}

} // verus!
