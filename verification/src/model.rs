//! The mathematical model of the filesystem: its state as maps and sequences,
//! and what each operation does to it.
use vstd::prelude::*;
use crate::errors::FsError;
use crate::fd::{FileDescriptor, OpenMode};
use crate::inode::{InodeId, InodeView, KindView, new_dir_view, new_file_view, new_symlink_view};
use crate::mount::MountView;
use crate::path::{split_path_spec, parent_and_name_spec, trim_end_slashes};
use crate::permissions::Permissions;

verus! {

/// The whole filesystem as mathematical values.
#[verifier::ext_equal]
pub struct FsView {
    pub inodes: Map<InodeId, InodeView>,
    pub next_inode: InodeId,
    pub root: InodeId,
    pub fds: Map<u32, FileDescriptor>,
    pub next_fd: u32,
    pub mounts: Seq<MountView>,
    pub max_depth: u32,
}

pub open spec fn perms_all() -> Permissions {
    Permissions { read: true, write: true, execute: true }
}

pub open spec fn perms_read_write() -> Permissions {
    Permissions { read: true, write: true, execute: false }
}

/// The state of a new filesystem: a root directory and nothing else.
pub open spec fn initial_view() -> FsView {
    FsView {
        inodes: Map::empty().insert(1u64, new_dir_view(1, perms_all())),
        next_inode: 2,
        root: 1,
        fds: Map::empty(),
        next_fd: 0,
        mounts: Seq::empty(),
        max_depth: 40,
    }
}

/// No place where resolution starts, the root or a mount's root, is a symlink.
pub open spec fn roots_not_symlinks(v: FsView) -> bool {
    &&& !(v.inodes.contains_key(v.root) && v.inodes[v.root].kind is Symlink)
    &&& forall|j: int|
        0 <= j < v.mounts.len() ==> !(v.inodes.contains_key(#[trigger] v.mounts[j].root)
            && v.inodes[v.mounts[j].root].kind is Symlink)
}

// ---------------------------------------------------------------------------
// Mount points
// ---------------------------------------------------------------------------

/// A mount path applies to `path` when, without its trailing slashes, it is a
/// prefix of `path` that ends at a component boundary. So a mount at `/`
/// applies to every absolute path, and one at `/a/` to what one at `/a` would.
pub open spec fn mount_matches(path: Seq<char>, mp: Seq<char>) -> bool {
    let e = trim_end_slashes(mp);
    &&& e.len() <= path.len()
    &&& path.take(e.len() as int) == e
    &&& (path.len() == e.len() || path[e.len() as int] == '/')
}

/// The number of components of a mount path; resolution below a mount point
/// walks only what follows them.
pub open spec fn mount_depth(mp: Seq<char>) -> nat {
    match split_path_spec(mp) {
        Ok(c) => c.len(),
        Err(_) => 0,
    }
}

/// Scanning the first `n` mounts in order: a score (0 for no match so far,
/// else one more than the length of the longest match without trailing
/// slashes), and the root and component count of that match; on equal lengths
/// the earlier entry stays.
pub open spec fn mount_scan(ms: Seq<MountView>, path: Seq<char>, n: nat, default: InodeId) -> (
    nat,
    InodeId,
    nat,
)
    decreases n,
{
    if n == 0 {
        (0, default, 0)
    } else {
        let prev = mount_scan(ms, path, (n - 1) as nat, default);
        let m = ms[n - 1];
        if mount_matches(path, m.path) && trim_end_slashes(m.path).len() + 1 > prev.0 {
            (trim_end_slashes(m.path).len() + 1, m.root, mount_depth(m.path))
        } else {
            prev
        }
    }
}

/// The inode at which resolution of `path` starts.
pub open spec fn mount_root_spec(v: FsView, path: Seq<char>) -> InodeId {
    mount_scan(v.mounts, path, v.mounts.len(), v.root).1
}

/// How many leading components of `path` the applying mount point takes up.
pub open spec fn mount_skip_spec(v: FsView, path: Seq<char>) -> nat {
    mount_scan(v.mounts, path, v.mounts.len(), v.root).2
}

// ---------------------------------------------------------------------------
// Path resolution
// ---------------------------------------------------------------------------

pub open spec fn depth_fuel(v: FsView, depth: nat) -> nat {
    if depth <= v.max_depth {
        (v.max_depth + 1 - depth) as nat
    } else {
        0
    }
}

pub open spec fn is_dot_name(c: Seq<char>) -> bool {
    c == seq!['.'] || c == seq!['.', '.']
}

/// Resolution of `path`; `follow` says whether a symlink in the last position
/// is followed; `depth` counts the symlinks followed so far. The walk starts
/// at the root of the mount point that applies to `path`, after the mount
/// path's own components.
pub open spec fn resolve_spec(v: FsView, path: Seq<char>, follow: bool, depth: nat) -> Result<
    InodeId,
    FsError,
>
    decreases depth_fuel(v, depth), 1nat, 0nat,
{
    if depth > v.max_depth {
        Err(FsError::SymlinkLoop)
    } else {
        match split_path_spec(path) {
            Err(e) => Err(e),
            Ok(comps) => walk_spec(
                v,
                comps,
                mount_skip_spec(v, path),
                mount_root_spec(v, path),
                follow,
                depth,
            ),
        }
    }
}

/// One step of a walk: the entry `comp` of the directory `dir`. `.` and `..`
/// stay where they are; anything but a directory has no entries.
pub open spec fn lookup_spec(v: FsView, dir: InodeId, comp: Seq<char>) -> Result<InodeId, FsError> {
    match v.inodes[dir].kind {
        KindView::Directory(ch) => {
            if is_dot_name(comp) {
                Ok(dir)
            } else if ch.contains_key(comp) {
                Ok(ch[comp])
            } else {
                Err(FsError::NotFound)
            }
        },
        _ => Err(FsError::NotADirectory),
    }
}

/// Walking the components from index `i` on, standing at inode `cur`.
pub open spec fn walk_spec(
    v: FsView,
    comps: Seq<Seq<char>>,
    i: nat,
    cur: InodeId,
    follow: bool,
    depth: nat,
) -> Result<InodeId, FsError>
    decreases depth_fuel(v, depth), 0nat, comps.len() - i,
{
    if depth > v.max_depth {
        Err(FsError::SymlinkLoop)
    } else if i >= comps.len() {
        Ok(cur)
    } else if !v.inodes.contains_key(cur) {
        Err(FsError::NotFound)
    } else {
        let is_last = i + 1 == comps.len();
        let deref = match v.inodes[cur].kind {
            KindView::Symlink(t) => resolve_spec(v, t, true, depth + 1),
            _ => Ok(cur),
        };
        match deref {
            Err(e) => Err(e),
            Ok(c1) => {
                if !v.inodes.contains_key(c1) {
                    Err(FsError::NotFound)
                } else {
                    let step = lookup_spec(v, c1, comps[i as int]);
                    match step {
                        Err(e) => Err(e),
                        Ok(c2) => {
                            if is_last {
                                if !v.inodes.contains_key(c2) {
                                    Err(FsError::NotFound)
                                } else {
                                    match v.inodes[c2].kind {
                                        KindView::Symlink(t) => {
                                            if follow {
                                                resolve_spec(v, t, true, depth + 1)
                                            } else {
                                                Ok(c2)
                                            }
                                        },
                                        _ => Ok(c2),
                                    }
                                }
                            } else {
                                walk_spec(v, comps, i + 1, c2, follow, depth)
                            }
                        },
                    }
                }
            },
        }
    }
}

/// Resolution as the public `resolve_path` does it: following the last symlink.
pub open spec fn resolve_follow(v: FsView, path: Seq<char>) -> Result<InodeId, FsError> {
    resolve_spec(v, path, true, 0)
}

/// Resolution without following a symlink in the last position.
pub open spec fn resolve_no_follow(v: FsView, path: Seq<char>) -> Result<InodeId, FsError> {
    resolve_spec(v, path, false, 0)
}

/// The inode at a resolved id.
pub open spec fn inode_at(v: FsView, r: Result<InodeId, FsError>) -> Result<InodeView, FsError> {
    match r {
        Err(e) => Err(e),
        Ok(id) => if v.inodes.contains_key(id) {
            Ok(v.inodes[id])
        } else {
            Err(FsError::NotFound)
        },
    }
}

pub open spec fn stat_spec(v: FsView, path: Seq<char>) -> Result<InodeView, FsError> {
    inode_at(v, resolve_follow(v, path))
}

pub open spec fn lstat_spec(v: FsView, path: Seq<char>) -> Result<InodeView, FsError> {
    inode_at(v, resolve_no_follow(v, path))
}

/// The names in a directory.
pub open spec fn list_dir_spec(v: FsView, path: Seq<char>) -> Result<Set<Seq<char>>, FsError> {
    match stat_spec(v, path) {
        Err(e) => Err(e),
        Ok(node) => if !node.permissions.read {
            Err(FsError::PermissionDenied)
        } else {
            match node.kind {
                KindView::Directory(ch) => Ok(ch.dom()),
                _ => Err(FsError::NotADirectory),
            }
        },
    }
}

// ---------------------------------------------------------------------------
// Directory entry updates
// ---------------------------------------------------------------------------

/// `v` with `name -> cid` added to directory `pid` (nothing when `pid` is not a directory).
pub open spec fn insert_child_view(v: FsView, pid: InodeId, name: Seq<char>, cid: InodeId) -> FsView {
    match v.inodes[pid].kind {
        KindView::Directory(ch) => FsView {
            inodes: v.inodes.insert(
                pid,
                InodeView { kind: KindView::Directory(ch.insert(name, cid)), ..v.inodes[pid] },
            ),
            ..v
        },
        _ => v,
    }
}

/// `v` with `name` removed from directory `pid` (nothing when `pid` is not a directory).
pub open spec fn remove_child_view(v: FsView, pid: InodeId, name: Seq<char>) -> FsView {
    match v.inodes[pid].kind {
        KindView::Directory(ch) => FsView {
            inodes: v.inodes.insert(
                pid,
                InodeView { kind: KindView::Directory(ch.remove(name)), ..v.inodes[pid] },
            ),
            ..v
        },
        _ => v,
    }
}

/// `v` with inode `id` replaced by `node`.
pub open spec fn set_inode(v: FsView, id: InodeId, node: InodeView) -> FsView {
    FsView { inodes: v.inodes.insert(id, node), ..v }
}

/// `v` with a fresh inode built by `node` at `next_inode`.
pub open spec fn add_inode(v: FsView, node: InodeView) -> FsView {
    FsView {
        inodes: v.inodes.insert(v.next_inode, node),
        next_inode: (v.next_inode + 1) as u64,
        ..v
    }
}

// ---------------------------------------------------------------------------
// Creation
// ---------------------------------------------------------------------------

/// The checks before a creation: the parent exists, is a writable directory and
/// does not hold the name yet.  Gives the parent and the new name.
pub open spec fn validate_create_spec(v: FsView, path: Seq<char>) -> Result<(InodeId, Seq<char>), FsError> {
    match parent_and_name_spec(path) {
        Err(e) => Err(e),
        Ok((pp, name)) => match resolve_follow(v, pp) {
            Err(e) => Err(e),
            Ok(pid) => {
                if !v.inodes.contains_key(pid) {
                    Err(FsError::NotFound)
                } else if !v.inodes[pid].permissions.write {
                    Err(FsError::PermissionDenied)
                } else {
                    match v.inodes[pid].kind {
                        KindView::Directory(ch) => if ch.contains_key(name) {
                            Err(FsError::AlreadyExists)
                        } else {
                            Ok((pid, name))
                        },
                        _ => Err(FsError::NotADirectory),
                    }
                }
            },
        },
    }
}

/// Creating at `path` does not overflow a counter.
pub open spec fn create_fits(v: FsView, path: Seq<char>) -> bool {
    validate_create_spec(v, path) is Ok ==> v.next_inode < u64::MAX
}

/// `mkdir` does not overflow a counter: the inode counter and the parent's link count.
pub open spec fn mkdir_fits(v: FsView, path: Seq<char>) -> bool {
    match validate_create_spec(v, path) {
        Ok((pid, _)) => v.next_inode < u64::MAX && v.inodes[pid].link_count < u32::MAX,
        Err(_) => true,
    }
}

pub open spec fn mkdir_spec(v: FsView, path: Seq<char>, perms: Permissions) -> (
    Result<InodeId, FsError>,
    FsView,
) {
    match validate_create_spec(v, path) {
        Err(e) => (Err(e), v),
        Ok((pid, name)) => {
            let id = v.next_inode;
            let v2 = insert_child_view(add_inode(v, new_dir_view(id, perms)), pid, name, id);
            let p = v2.inodes[pid];
            (Ok(id), set_inode(v2, pid, InodeView { link_count: (p.link_count + 1) as u32, ..p }))
        },
    }
}

pub open spec fn create_file_spec(v: FsView, path: Seq<char>, perms: Permissions) -> (
    Result<InodeId, FsError>,
    FsView,
) {
    match validate_create_spec(v, path) {
        Err(e) => (Err(e), v),
        Ok((pid, name)) => {
            let id = v.next_inode;
            (Ok(id), insert_child_view(add_inode(v, new_file_view(id, perms)), pid, name, id))
        },
    }
}

pub open spec fn create_symlink_spec(v: FsView, link: Seq<char>, target: Seq<char>) -> (
    Result<InodeId, FsError>,
    FsView,
) {
    match validate_create_spec(v, link) {
        Err(e) => (Err(e), v),
        Ok((pid, name)) => {
            let id = v.next_inode;
            (
                Ok(id),
                insert_child_view(
                    add_inode(v, new_symlink_view(id, target, perms_all())),
                    pid,
                    name,
                    id,
                ),
            )
        },
    }
}

pub open spec fn read_link_spec(v: FsView, path: Seq<char>) -> Result<Seq<char>, FsError> {
    match lstat_spec(v, path) {
        Err(e) => Err(e),
        Ok(node) => match node.kind {
            KindView::Symlink(t) => Ok(t),
            _ => Err(FsError::NotASymlink),
        },
    }
}

// ---------------------------------------------------------------------------
// Removal
// ---------------------------------------------------------------------------

/// The checks before a removal: the parent exists, is a writable directory and
/// holds the name.  Gives the parent, the name and the child.
pub open spec fn validate_remove_spec(v: FsView, path: Seq<char>) -> Result<
    (InodeId, Seq<char>, InodeId),
    FsError,
> {
    match parent_and_name_spec(path) {
        Err(e) => Err(e),
        Ok((pp, name)) => match resolve_follow(v, pp) {
            Err(e) => Err(e),
            Ok(pid) => {
                if !v.inodes.contains_key(pid) {
                    Err(FsError::NotFound)
                } else if !v.inodes[pid].permissions.write {
                    Err(FsError::PermissionDenied)
                } else {
                    match v.inodes[pid].kind {
                        KindView::Directory(ch) => if ch.contains_key(name) {
                            Ok((pid, name, ch[name]))
                        } else {
                            Err(FsError::NotFound)
                        },
                        _ => Err(FsError::NotADirectory),
                    }
                }
            },
        },
    }
}

pub open spec fn saturating_dec(x: u32) -> u32 {
    if x > 0 {
        (x - 1) as u32
    } else {
        0
    }
}

pub open spec fn unlink_spec(v: FsView, path: Seq<char>) -> (Result<(), FsError>, FsView) {
    match validate_remove_spec(v, path) {
        Err(e) => (Err(e), v),
        Ok((pid, name, cid)) => {
            if !v.inodes.contains_key(cid) {
                (Err(FsError::NotFound), v)
            } else if v.inodes[cid].kind is Directory {
                (Err(FsError::IsADirectory), v)
            } else {
                let v1 = remove_child_view(v, pid, name);
                let c = v1.inodes[cid];
                let lc = saturating_dec(c.link_count);
                if lc == 0 {
                    (Ok(()), FsView { inodes: v1.inodes.remove(cid), ..v1 })
                } else {
                    (Ok(()), set_inode(v1, cid, InodeView { link_count: lc, ..c }))
                }
            }
        },
    }
}

pub open spec fn rmdir_spec(v: FsView, path: Seq<char>) -> (Result<(), FsError>, FsView) {
    match validate_remove_spec(v, path) {
        Err(e) => (Err(e), v),
        Ok((pid, name, cid)) => {
            if !v.inodes.contains_key(cid) {
                (Err(FsError::NotFound), v)
            } else {
                match v.inodes[cid].kind {
                    KindView::Directory(ch) => {
                        if !ch.is_empty() {
                            (Err(FsError::NotEmpty), v)
                        } else {
                            let v1 = remove_child_view(v, pid, name);
                            let p = v1.inodes[pid];
                            let v2 = set_inode(
                                v1,
                                pid,
                                InodeView { link_count: saturating_dec(p.link_count), ..p },
                            );
                            (Ok(()), FsView { inodes: v2.inodes.remove(cid), ..v2 })
                        }
                    },
                    _ => (Err(FsError::NotADirectory), v),
                }
            }
        },
    }
}

// ---------------------------------------------------------------------------
// Whole-file read and write
// ---------------------------------------------------------------------------

pub open spec fn write_file_spec(v: FsView, path: Seq<char>, data: Seq<u8>) -> (
    Result<(), FsError>,
    FsView,
) {
    match stat_spec(v, path) {
        Err(e) => (Err(e), v),
        Ok(node) => {
            if !node.permissions.write {
                (Err(FsError::PermissionDenied), v)
            } else {
                match node.kind {
                    KindView::File(_) => {
                        let id = resolve_follow(v, path)->Ok_0;
                        (
                            Ok(()),
                            set_inode(
                                v,
                                id,
                                InodeView {
                                    kind: KindView::File(data),
                                    size: data.len() as u64,
                                    ..node
                                },
                            ),
                        )
                    },
                    _ => (Err(FsError::IsADirectory), v),
                }
            }
        },
    }
}

pub open spec fn read_file_spec(v: FsView, path: Seq<char>) -> Result<Seq<u8>, FsError> {
    match stat_spec(v, path) {
        Err(e) => Err(e),
        Ok(node) => {
            if !node.permissions.read {
                Err(FsError::PermissionDenied)
            } else {
                match node.kind {
                    KindView::File(data) => Ok(data),
                    _ => Err(FsError::IsADirectory),
                }
            }
        },
    }
}

/// `data` resized to `size` bytes, new bytes zero (`Vec::resize`).
pub open spec fn resize_spec(data: Seq<u8>, size: nat) -> Seq<u8> {
    Seq::new(size, |i: int| if i < data.len() { data[i] } else { 0u8 })
}

pub open spec fn truncate_spec(v: FsView, path: Seq<char>, size: u64) -> (
    Result<(), FsError>,
    FsView,
) {
    match stat_spec(v, path) {
        Err(e) => (Err(e), v),
        Ok(node) => {
            if !node.permissions.write {
                (Err(FsError::PermissionDenied), v)
            } else {
                match node.kind {
                    KindView::File(data) => {
                        let id = resolve_follow(v, path)->Ok_0;
                        (
                            Ok(()),
                            set_inode(
                                v,
                                id,
                                InodeView {
                                    kind: KindView::File(resize_spec(data, size as nat)),
                                    size: size,
                                    ..node
                                },
                            ),
                        )
                    },
                    _ => (Err(FsError::IsADirectory), v),
                }
            }
        },
    }
}

/// Truncating does not ask for more bytes than an address space holds.
pub open spec fn truncate_fits(v: FsView, path: Seq<char>, size: u64) -> bool {
    truncate_spec(v, path, size).0 is Ok ==> size <= usize::MAX
}

pub open spec fn chmod_spec(v: FsView, path: Seq<char>, perms: Permissions) -> (
    Result<(), FsError>,
    FsView,
) {
    match stat_spec(v, path) {
        Err(e) => (Err(e), v),
        Ok(node) => (
            Ok(()),
            set_inode(v, resolve_follow(v, path)->Ok_0, InodeView { permissions: perms, ..node }),
        ),
    }
}

// ---------------------------------------------------------------------------
// File descriptors
// ---------------------------------------------------------------------------

pub open spec fn mode_allows(p: Permissions, mode: OpenMode) -> bool {
    match mode {
        OpenMode::Read => p.read,
        OpenMode::Write | OpenMode::Append => p.write,
        OpenMode::ReadWrite => p.read && p.write,
    }
}

/// The checks of `open`: gives the inode that would be opened.
pub open spec fn open_check_spec(v: FsView, path: Seq<char>, mode: OpenMode) -> Result<InodeId, FsError> {
    match stat_spec(v, path) {
        Err(e) => Err(e),
        Ok(node) => {
            if node.kind is Directory {
                Err(FsError::IsADirectory)
            } else if !mode_allows(node.permissions, mode) {
                Err(FsError::PermissionDenied)
            } else {
                Ok(resolve_follow(v, path)->Ok_0)
            }
        },
    }
}

pub open spec fn open_fits(v: FsView, path: Seq<char>, mode: OpenMode) -> bool {
    open_check_spec(v, path, mode) is Ok ==> v.next_fd < u32::MAX
}

pub open spec fn open_spec(v: FsView, path: Seq<char>, mode: OpenMode) -> (
    Result<u32, FsError>,
    FsView,
) {
    match open_check_spec(v, path, mode) {
        Err(e) => (Err(e), v),
        Ok(id) => {
            let fd = v.next_fd;
            let offset: u64 = if mode == OpenMode::Append {
                v.inodes[id].size
            } else {
                0
            };
            (
                Ok(fd),
                FsView {
                    fds: v.fds.insert(fd, FileDescriptor { fd, inode_id: id, mode, offset }),
                    next_fd: (fd + 1) as u32,
                    ..v
                },
            )
        },
    }
}

pub open spec fn close_spec(v: FsView, fd: u32) -> (Result<(), FsError>, FsView) {
    if v.fds.contains_key(fd) {
        (Ok(()), FsView { fds: v.fds.remove(fd), ..v })
    } else {
        (Err(FsError::InvalidFileDescriptor), v)
    }
}

/// The file contents behind an open descriptor that permits the given kind of
/// access, or the error that the access gives.
pub open spec fn fd_file(v: FsView, fd: u32, writing: bool) -> Result<Seq<u8>, FsError> {
    if !v.fds.contains_key(fd) {
        Err(FsError::InvalidFileDescriptor)
    } else if !writing && (v.fds[fd].mode == OpenMode::Write || v.fds[fd].mode == OpenMode::Append) {
        Err(FsError::WriteOnly)
    } else if writing && v.fds[fd].mode == OpenMode::Read {
        Err(FsError::ReadOnly)
    } else if !v.inodes.contains_key(v.fds[fd].inode_id) {
        Err(FsError::NotFound)
    } else {
        match v.inodes[v.fds[fd].inode_id].kind {
            KindView::File(data) => Ok(data),
            _ => Err(FsError::IsADirectory),
        }
    }
}

pub open spec fn min_int(a: int, b: int) -> int {
    if a <= b {
        a
    } else {
        b
    }
}

pub open spec fn read_spec(v: FsView, fd: u32, len: nat) -> (Result<Seq<u8>, FsError>, FsView) {
    match fd_file(v, fd, false) {
        Err(e) => (Err(e), v),
        Ok(data) => {
            let off = v.fds[fd].offset as int;
            let end = min_int(data.len() as int, off + len);
            let out = if off < data.len() {
                data.subrange(off, end)
            } else {
                Seq::empty()
            };
            (
                Ok(out),
                FsView { fds: v.fds.insert(fd, FileDescriptor { offset: end as u64, ..v.fds[fd] }), ..v },
            )
        },
    }
}

/// `data` with `buf` written at `off`, zero-filled up to `off` when it is past the end.
pub open spec fn write_at(data: Seq<u8>, off: int, buf: Seq<u8>) -> Seq<u8> {
    let n = if off + buf.len() > data.len() {
        off + buf.len()
    } else {
        data.len() as int
    };
    Seq::new(
        n as nat,
        |i: int|
            if off <= i < off + buf.len() {
                buf[i - off]
            } else if i < data.len() {
                data[i]
            } else {
                0u8
            },
    )
}

/// Writing through a descriptor does not overflow the offset arithmetic.
pub open spec fn write_fits(v: FsView, fd: u32, len: nat) -> bool {
    fd_file(v, fd, true) is Ok ==> v.fds[fd].offset + len <= usize::MAX
}

pub open spec fn write_spec(v: FsView, fd: u32, buf: Seq<u8>) -> (Result<usize, FsError>, FsView) {
    match fd_file(v, fd, true) {
        Err(e) => (Err(e), v),
        Ok(data) => {
            let d = v.fds[fd];
            let id = d.inode_id;
            let nd = write_at(data, d.offset as int, buf);
            let v1 = set_inode(
                v,
                id,
                InodeView { kind: KindView::File(nd), size: nd.len() as u64, ..v.inodes[id] },
            );
            (
                Ok(buf.len() as usize),
                FsView {
                    fds: v1.fds.insert(fd, FileDescriptor { offset: (d.offset + buf.len()) as u64, ..d }),
                    ..v1
                },
            )
        },
    }
}

pub open spec fn seek_spec(v: FsView, fd: u32, offset: u64) -> (Result<(), FsError>, FsView) {
    if v.fds.contains_key(fd) {
        (Ok(()), FsView { fds: v.fds.insert(fd, FileDescriptor { offset, ..v.fds[fd] }), ..v })
    } else {
        (Err(FsError::InvalidFileDescriptor), v)
    }
}

pub open spec fn tell_spec(v: FsView, fd: u32) -> Result<u64, FsError> {
    if v.fds.contains_key(fd) {
        Ok(v.fds[fd].offset)
    } else {
        Err(FsError::InvalidFileDescriptor)
    }
}

// ---------------------------------------------------------------------------
// Mounting
// ---------------------------------------------------------------------------

/// The checks of `mount`: the path resolves to an empty directory.
pub open spec fn mount_check_spec(v: FsView, mount_path: Seq<char>) -> Result<(), FsError> {
    match stat_spec(v, mount_path) {
        Err(e) => Err(e),
        Ok(node) => match node.kind {
            KindView::Directory(ch) => if !ch.is_empty() {
                Err(FsError::MountPointNotEmpty)
            } else {
                Ok(())
            },
            _ => Err(FsError::NotADirectory),
        },
    }
}

pub open spec fn mount_fits(v: FsView, mount_path: Seq<char>) -> bool {
    mount_check_spec(v, mount_path) is Ok ==> v.next_inode < u64::MAX
}

pub open spec fn mount_spec(v: FsView, mount_path: Seq<char>, label: Seq<char>) -> (
    Result<(), FsError>,
    FsView,
) {
    match mount_check_spec(v, mount_path) {
        Err(e) => (Err(e), v),
        Ok(()) => {
            let id = v.next_inode;
            let v1 = add_inode(v, new_dir_view(id, perms_all()));
            (
                Ok(()),
                FsView {
                    mounts: v1.mounts.push(MountView { path: mount_path, root: id, label }),
                    ..v1
                },
            )
        },
    }
}

pub open spec fn mount_paths(ms: Seq<MountView>) -> Seq<Seq<char>> {
    ms.map_values(|m: MountView| m.path)
}

pub open spec fn unmount_spec(v: FsView, mount_path: Seq<char>) -> (Result<(), FsError>, FsView) {
    match mount_paths(v.mounts).index_of_first(mount_path) {
        None => (Err(FsError::MountPointNotFound), v),
        Some(i) => (Ok(()), FsView { mounts: v.mounts.remove(i), ..v }),
    }
}

// ---------------------------------------------------------------------------
// Rename and hard links
// ---------------------------------------------------------------------------

pub open spec fn rename_spec(v: FsView, old_path: Seq<char>, new_path: Seq<char>) -> (
    Result<(), FsError>,
    FsView,
) {
    match parent_and_name_spec(old_path) {
        Err(e) => (Err(e), v),
        Ok((op, on)) => match parent_and_name_spec(new_path) {
            Err(e) => (Err(e), v),
            Ok((np, nn)) => match resolve_follow(v, op) {
                Err(e) => (Err(e), v),
                Ok(opid) => match resolve_follow(v, np) {
                    Err(e) => (Err(e), v),
                    Ok(npid) => {
                        if !v.inodes.contains_key(opid) {
                            (Err(FsError::NotFound), v)
                        } else {
                            match v.inodes[opid].kind {
                                KindView::Directory(och) => {
                                    if !och.contains_key(on) {
                                        (Err(FsError::NotFound), v)
                                    } else if !v.inodes.contains_key(npid) {
                                        (Err(FsError::NotFound), v)
                                    } else {
                                        match v.inodes[npid].kind {
                                            KindView::Directory(nch) => {
                                                if nch.contains_key(nn) {
                                                    (Err(FsError::AlreadyExists), v)
                                                } else {
                                                    let child = och[on];
                                                    (
                                                        Ok(()),
                                                        insert_child_view(
                                                            remove_child_view(v, opid, on),
                                                            npid,
                                                            nn,
                                                            child,
                                                        ),
                                                    )
                                                }
                                            },
                                            _ => (Err(FsError::NotADirectory), v),
                                        }
                                    }
                                },
                                _ => (Err(FsError::NotADirectory), v),
                            }
                        }
                    },
                },
            },
        },
    }
}

/// The checks of `hard_link`: gives the linked inode, the new parent and the new name.
pub open spec fn hard_link_check_spec(v: FsView, existing: Seq<char>, new_path: Seq<char>) -> Result<
    (InodeId, InodeId, Seq<char>),
    FsError,
> {
    match resolve_follow(v, existing) {
        Err(e) => Err(e),
        Ok(eid) => {
            if !v.inodes.contains_key(eid) {
                Err(FsError::NotFound)
            } else if v.inodes[eid].kind is Directory {
                Err(FsError::IsADirectory)
            } else {
                match parent_and_name_spec(new_path) {
                    Err(e) => Err(e),
                    Ok((pp, name)) => match resolve_follow(v, pp) {
                        Err(e) => Err(e),
                        Ok(pid) => {
                            if !v.inodes.contains_key(pid) {
                                Err(FsError::NotFound)
                            } else {
                                match v.inodes[pid].kind {
                                    KindView::Directory(ch) => if ch.contains_key(name) {
                                        Err(FsError::AlreadyExists)
                                    } else {
                                        Ok((eid, pid, name))
                                    },
                                    _ => Err(FsError::NotADirectory),
                                }
                            }
                        },
                    },
                }
            }
        },
    }
}

pub open spec fn hard_link_fits(v: FsView, existing: Seq<char>, new_path: Seq<char>) -> bool {
    match hard_link_check_spec(v, existing, new_path) {
        Ok((eid, _, _)) => v.inodes[eid].link_count < u32::MAX,
        Err(_) => true,
    }
}

pub open spec fn hard_link_spec(v: FsView, existing: Seq<char>, new_path: Seq<char>) -> (
    Result<(), FsError>,
    FsView,
) {
    match hard_link_check_spec(v, existing, new_path) {
        Err(e) => (Err(e), v),
        Ok((eid, pid, name)) => {
            let v1 = insert_child_view(v, pid, name, eid);
            let node = v1.inodes[eid];
            (Ok(()), set_inode(v1, eid, InodeView { link_count: (node.link_count + 1) as u32, ..node }))
        },
    }
}

// ---------------------------------------------------------------------------
// mkdir -p
// ---------------------------------------------------------------------------

/// Creating the directories of `comps` from index `i` on, below the path
/// `prefix`; `None` when a step would overflow a counter.
pub open spec fn mkdir_p_steps(
    v: FsView,
    comps: Seq<Seq<char>>,
    i: nat,
    prefix: Seq<char>,
    last: InodeId,
) -> Option<(Result<InodeId, FsError>, FsView)>
    decreases comps.len() - i,
{
    if i >= comps.len() {
        Some((Ok(last), v))
    } else {
        let p = prefix + seq!['/'] + comps[i as int];
        match resolve_follow(v, p) {
            Ok(id) => {
                if !v.inodes.contains_key(id) {
                    Some((Err(FsError::NotFound), v))
                } else if !(v.inodes[id].kind is Directory) {
                    Some((Err(FsError::NotADirectory), v))
                } else {
                    mkdir_p_steps(v, comps, i + 1, p, id)
                }
            },
            Err(FsError::NotFound) => {
                if !mkdir_fits(v, p) {
                    None
                } else {
                    let (r, v2) = mkdir_spec(v, p, perms_all());
                    match r {
                        Err(e) => Some((Err(e), v2)),
                        Ok(id) => mkdir_p_steps(v2, comps, i + 1, p, id),
                    }
                }
            },
            Err(e) => Some((Err(e), v)),
        }
    }
}

pub open spec fn mkdir_p_spec(v: FsView, path: Seq<char>) -> Option<(Result<InodeId, FsError>, FsView)> {
    match split_path_spec(path) {
        Err(e) => Some((Err(e), v)),
        Ok(comps) => mkdir_p_steps(v, comps, 0, Seq::empty(), v.root),
    }
}

} // verus!
