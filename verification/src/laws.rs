//! Properties that relate several operations of the filesystem.
use vstd::prelude::*;
use crate::buf_io::{file_rest, prefix_upto, reads_at, with_offset};
use crate::errors::FsError;
use crate::fd::OpenMode;
use crate::inode::{InodeId, InodeView, KindView, new_dir_view};
use crate::model::{FsView, chmod_spec, close_spec, create_file_spec, create_symlink_spec,
    depth_fuel, fd_file, hard_link_check_spec, hard_link_spec, list_dir_spec, lstat_spec, mkdir_spec,
    mount_paths, mount_root_spec, mount_spec, open_spec, read_file_spec, read_spec, resize_spec,
    resolve_follow, resolve_no_follow, resolve_spec, roots_not_symlinks, seek_spec, stat_spec,
    tell_spec, truncate_spec, unlink_spec, unmount_spec, validate_create_spec,
    validate_remove_spec, walk_spec, write_at, write_file_spec, write_spec};
use crate::path::{parent_and_name_spec, split_path_spec, trim_end_slashes};
use crate::permissions::Permissions;
use crate::virtual_fs::view_wf;

verus! {

/// Writing `a` and then `b` through a descriptor leaves the filesystem as
/// writing `a + b` in one call does.
pub proof fn lemma_write_compose(v: FsView, fd: u32, a: Seq<u8>, b: Seq<u8>)
    requires
        fd_file(v, fd, true) is Ok,
        v.fds[fd].offset + a.len() + b.len() <= u64::MAX,
    ensures
        write_spec(v, fd, a).0 is Ok,
        fd_file(write_spec(v, fd, a).1, fd, true) is Ok,
        write_spec(v, fd, a).1.fds[fd].offset == v.fds[fd].offset + a.len(),
        write_spec(write_spec(v, fd, a).1, fd, b).1 == write_spec(v, fd, a + b).1,
{
    let d = v.fds[fd];
    let data = fd_file(v, fd, true)->Ok_0;
    let o = d.offset as int;
    let v1 = write_spec(v, fd, a).1;
    let d1 = write_at(data, o, a);
    assert(v1.inodes[d.inode_id].kind == KindView::File(d1));
    assert(fd_file(v1, fd, true) == Ok::<Seq<u8>, FsError>(d1));
    let d2 = write_at(d1, o + a.len(), b);
    let dab = write_at(data, o, a + b);
    assert forall|i: int| 0 <= i < d2.len() implies d2[i] == dab[i] by {
        if o <= i < o + a.len() {
            assert((a + b)[i - o] == a[i - o]);
        } else if o + a.len() <= i < o + a.len() + b.len() {
            assert((a + b)[i - o] == b[i - o - a.len()]);
        }
    }
    assert(d2 =~= dab);
    let v2 = write_spec(v1, fd, b).1;
    let vab = write_spec(v, fd, a + b).1;
    assert(v2.inodes =~= vab.inodes);
    assert(v2.fds =~= vab.fds);
    assert(v2 =~= vab);
}

/// Buffering is transparent: the bytes a buffered writer flushes while
/// writing, followed by what is left in its buffer when it is flushed, leave
/// the file as writing all of them at once does.
pub proof fn lemma_buffered_write_then_flush(v: FsView, fd: u32, total: Seq<u8>, flushed: nat)
    requires
        fd_file(v, fd, true) is Ok,
        flushed <= total.len(),
        v.fds[fd].offset + total.len() <= u64::MAX,
    ensures
        write_spec(write_spec(v, fd, total.take(flushed as int)).1, fd, total.skip(flushed as int)).1
            == write_spec(v, fd, total).1,
{
    lemma_write_compose(v, fd, total.take(flushed as int), total.skip(flushed as int));
    assert(total.take(flushed as int) + total.skip(flushed as int) =~= total);
}

/// Two inodes have the same shape when they are both files, or both the same
/// directory, or both the same symlink.
pub open spec fn same_shape(a: KindView, b: KindView) -> bool {
    match (a, b) {
        (KindView::File(_), KindView::File(_)) => true,
        (KindView::Directory(x), KindView::Directory(y)) => x == y,
        (KindView::Symlink(x), KindView::Symlink(y)) => x == y,
        _ => false,
    }
}

/// Two states have the same namespace when they differ at most in file
/// contents and in inode metadata other than the kind.
pub open spec fn same_namespace(v1: FsView, v2: FsView) -> bool {
    &&& v1.root == v2.root
    &&& v1.mounts == v2.mounts
    &&& v1.max_depth == v2.max_depth
    &&& v1.inodes.dom() == v2.inodes.dom()
    &&& forall|id: InodeId| #[trigger] v1.inodes.contains_key(id) ==> same_shape(
        v1.inodes[id].kind,
        v2.inodes[id].kind,
    )
}

/// Where a path leads depends on the namespace alone: file contents,
/// permissions, sizes and link counts never change it.
pub proof fn lemma_resolve_same_namespace(
    v1: FsView,
    v2: FsView,
    path: Seq<char>,
    follow: bool,
    depth: nat,
)
    requires
        same_namespace(v1, v2),
    ensures
        resolve_spec(v1, path, follow, depth) == resolve_spec(v2, path, follow, depth),
    decreases depth_fuel(v1, depth), 1nat, 0nat,
{
    if depth <= v1.max_depth {
        if let Ok(comps) = split_path_spec(path) {
            assert(mount_root_spec(v1, path) == mount_root_spec(v2, path));
            lemma_walk_same_namespace(v1, v2, comps, crate::model::mount_skip_spec(v1, path), mount_root_spec(v1, path), follow, depth);
        }
    }
}

/// The walk over components, like `resolve_spec`, depends on the namespace alone.
pub proof fn lemma_walk_same_namespace(
    v1: FsView,
    v2: FsView,
    comps: Seq<Seq<char>>,
    i: nat,
    cur: InodeId,
    follow: bool,
    depth: nat,
)
    requires
        same_namespace(v1, v2),
    ensures
        walk_spec(v1, comps, i, cur, follow, depth) == walk_spec(v2, comps, i, cur, follow, depth),
    decreases depth_fuel(v1, depth), 0nat, comps.len() - i,
{
    if depth <= v1.max_depth && i < comps.len() && v1.inodes.contains_key(cur) {
        assert(same_shape(v1.inodes[cur].kind, v2.inodes[cur].kind));
        if let KindView::Symlink(t) = v1.inodes[cur].kind {
            lemma_resolve_same_namespace(v1, v2, t, true, depth + 1);
        }
        let deref = match v1.inodes[cur].kind {
            KindView::Symlink(t) => resolve_spec(v1, t, true, depth + 1),
            _ => Ok(cur),
        };
        if let Ok(c1) = deref {
            if v1.inodes.contains_key(c1) {
                assert(same_shape(v1.inodes[c1].kind, v2.inodes[c1].kind));
                let is_last = i + 1 == comps.len();
                let step = crate::model::lookup_spec(v1, c1, comps[i as int]);
                if let Ok(c2) = step {
                    if is_last {
                        if v1.inodes.contains_key(c2) {
                            assert(same_shape(v1.inodes[c2].kind, v2.inodes[c2].kind));
                            if let KindView::Symlink(t) = v1.inodes[c2].kind {
                                lemma_resolve_same_namespace(v1, v2, t, true, depth + 1);
                            }
                        }
                    } else {
                        lemma_walk_same_namespace(v1, v2, comps, i + 1, c2, follow, depth);
                    }
                }
            }
        }
    }
}

/// What a successful `write_file` stores, `read_file` gives back, as long as
/// the file may be read.
pub proof fn lemma_write_file_then_read_file(v: FsView, path: Seq<char>, data: Seq<u8>)
    requires
        write_file_spec(v, path, data).0 is Ok,
        stat_spec(v, path)->Ok_0.permissions.read,
    ensures
        read_file_spec(write_file_spec(v, path, data).1, path) == Ok::<Seq<u8>, FsError>(data),
{
    let v2 = write_file_spec(v, path, data).1;
    let id = resolve_follow(v, path)->Ok_0;
    assert forall|i: InodeId| #[trigger] v.inodes.contains_key(i) implies same_shape(
        v.inodes[i].kind,
        v2.inodes[i].kind,
    ) by {}
    assert(v.inodes.dom() =~= v2.inodes.dom());
    lemma_resolve_same_namespace(v, v2, path, true, 0);
}

/// After a successful `chmod`, `stat` shows the new permissions.
pub proof fn lemma_chmod_then_stat(v: FsView, path: Seq<char>, perms: Permissions)
    requires
        chmod_spec(v, path, perms).0 is Ok,
    ensures
        stat_spec(chmod_spec(v, path, perms).1, path) == Ok::<InodeView, FsError>(
            InodeView { permissions: perms, ..stat_spec(v, path)->Ok_0 },
        ),
{
    let v2 = chmod_spec(v, path, perms).1;
    assert forall|i: InodeId| #[trigger] v.inodes.contains_key(i) implies same_shape(
        v.inodes[i].kind,
        v2.inodes[i].kind,
    ) by {
        match v.inodes[i].kind {
            KindView::File(_) => {},
            _ => {},
        }
    }
    assert(v.inodes.dom() =~= v2.inodes.dom());
    lemma_resolve_same_namespace(v, v2, path, true, 0);
}

/// After a successful `truncate`, `read_file` gives the old contents cut or
/// zero-extended to the new size, as long as the file may be read.
pub proof fn lemma_truncate_then_read_file(v: FsView, path: Seq<char>, size: u64)
    requires
        truncate_spec(v, path, size).0 is Ok,
        stat_spec(v, path)->Ok_0.permissions.read,
    ensures
        read_file_spec(truncate_spec(v, path, size).1, path) == Ok::<Seq<u8>, FsError>(
            resize_spec(stat_spec(v, path)->Ok_0.kind->File_0, size as nat),
        ),
{
    let v2 = truncate_spec(v, path, size).1;
    assert forall|i: InodeId| #[trigger] v.inodes.contains_key(i) implies same_shape(
        v.inodes[i].kind,
        v2.inodes[i].kind,
    ) by {}
    assert(v.inodes.dom() =~= v2.inodes.dom());
    lemma_resolve_same_namespace(v, v2, path, true, 0);
}

/// Through a descriptor open for reading and writing: after writing `buf`,
/// seeking back to where the write began and reading `buf.len()` bytes gives `buf`.
pub proof fn lemma_fd_write_then_read(v: FsView, fd: u32, buf: Seq<u8>)
    requires
        write_spec(v, fd, buf).0 is Ok,
        v.fds[fd].mode == OpenMode::ReadWrite,
        v.fds[fd].offset + buf.len() <= u64::MAX,
    ensures
        ({
            let v1 = write_spec(v, fd, buf).1;
            let v2 = seek_spec(v1, fd, v.fds[fd].offset).1;
            read_spec(v2, fd, buf.len()).0 == Ok::<Seq<u8>, FsError>(buf)
        }),
{
    let v1 = write_spec(v, fd, buf).1;
    let v2 = seek_spec(v1, fd, v.fds[fd].offset).1;
    let d = fd_file(v, fd, true)->Ok_0;
    let o = v.fds[fd].offset as int;
    let nd = write_at(d, o, buf);
    assert(fd_file(v2, fd, false) == Ok::<Seq<u8>, FsError>(nd));
    let out = read_spec(v2, fd, buf.len()).0->Ok_0;
    if o < nd.len() {
        assert(out =~= buf);
    } else {
        assert(buf.len() == 0);
        assert(out =~= buf);
    }
}

/// `tell` gives back the offset that `seek` set.
pub proof fn lemma_seek_then_tell(v: FsView, fd: u32, offset: u64)
    requires
        v.fds.contains_key(fd),
    ensures
        seek_spec(v, fd, offset).0 is Ok,
        tell_spec(seek_spec(v, fd, offset).1, fd) == Ok::<u64, FsError>(offset),
{
}

/// An operation that fails leaves the filesystem as it was.
pub proof fn lemma_failure_changes_nothing(
    v: FsView,
    path: Seq<char>,
    other: Seq<char>,
    perms: Permissions,
    data: Seq<u8>,
    fd: u32,
    mode: OpenMode,
    size: u64,
)
    ensures
        mkdir_spec(v, path, perms).0 is Err ==> mkdir_spec(v, path, perms).1 == v,
        create_file_spec(v, path, perms).0 is Err ==> create_file_spec(v, path, perms).1 == v,
        create_symlink_spec(v, path, other).0 is Err ==> create_symlink_spec(v, path, other).1 == v,
        unlink_spec(v, path).0 is Err ==> unlink_spec(v, path).1 == v,
        crate::model::rmdir_spec(v, path).0 is Err ==> crate::model::rmdir_spec(v, path).1 == v,
        crate::model::rename_spec(v, path, other).0 is Err ==> crate::model::rename_spec(v, path, other).1
            == v,
        hard_link_spec(v, path, other).0 is Err ==> hard_link_spec(v, path, other).1 == v,
        write_file_spec(v, path, data).0 is Err ==> write_file_spec(v, path, data).1 == v,
        truncate_spec(v, path, size).0 is Err ==> truncate_spec(v, path, size).1 == v,
        chmod_spec(v, path, perms).0 is Err ==> chmod_spec(v, path, perms).1 == v,
        open_spec(v, path, mode).0 is Err ==> open_spec(v, path, mode).1 == v,
        close_spec(v, fd).0 is Err ==> close_spec(v, fd).1 == v,
        read_spec(v, fd, size as nat).0 is Err ==> read_spec(v, fd, size as nat).1 == v,
        write_spec(v, fd, data).0 is Err ==> write_spec(v, fd, data).1 == v,
        seek_spec(v, fd, size).0 is Err ==> seek_spec(v, fd, size).1 == v,
        mount_spec(v, path, other).0 is Err ==> mount_spec(v, path, other).1 == v,
        unmount_spec(v, path).0 is Err ==> unmount_spec(v, path).1 == v,
{
}

/// A successful creation adds exactly one inode, under an id not used before.
pub proof fn lemma_create_adds_one_inode(v: FsView, path: Seq<char>, target: Seq<char>, perms: Permissions)
    requires
        view_wf(v),
    ensures
        mkdir_spec(v, path, perms).0 is Ok ==> {
            &&& !v.inodes.contains_key(mkdir_spec(v, path, perms).0->Ok_0)
            &&& mkdir_spec(v, path, perms).1.inodes.len() == v.inodes.len() + 1
        },
        create_file_spec(v, path, perms).0 is Ok ==> {
            &&& !v.inodes.contains_key(create_file_spec(v, path, perms).0->Ok_0)
            &&& create_file_spec(v, path, perms).1.inodes.len() == v.inodes.len() + 1
        },
        create_symlink_spec(v, path, target).0 is Ok ==> {
            &&& !v.inodes.contains_key(create_symlink_spec(v, path, target).0->Ok_0)
            &&& create_symlink_spec(v, path, target).1.inodes.len() == v.inodes.len() + 1
        },
{
    if validate_create_spec(v, path) is Ok {
        let (pid, name) = validate_create_spec(v, path)->Ok_0;
        let id = v.next_inode;
        assert(!v.inodes.contains_key(id));
        let d1 = v.inodes.insert(id, new_dir_view(id, perms)).dom();
        assert(d1 == v.inodes.dom().insert(id));
        assert(mkdir_spec(v, path, perms).1.inodes.dom() =~= d1);
        assert(create_file_spec(v, path, perms).1.inodes.dom() =~= v.inodes.dom().insert(id));
        assert(create_symlink_spec(v, path, target).1.inodes.dom() =~= v.inodes.dom().insert(id));
    }
}

/// Unlinking the last name of a file removes its inode; unlinking one of
/// several names keeps it.
pub proof fn lemma_unlink_inode_count(v: FsView, path: Seq<char>)
    requires
        view_wf(v),
        unlink_spec(v, path).0 is Ok,
    ensures
        ({
            let cid = validate_remove_spec(v, path)->Ok_0.2;
            let n = unlink_spec(v, path).1.inodes.len();
            if v.inodes[cid].link_count <= 1 {
                n == v.inodes.len() - 1
            } else {
                n == v.inodes.len()
            }
        }),
{
    let (pid, name, cid) = validate_remove_spec(v, path)->Ok_0;
    let v2 = unlink_spec(v, path).1;
    assert(pid != cid);
    if v.inodes[cid].link_count <= 1 {
        assert(v2.inodes.dom() =~= v.inodes.dom().remove(cid));
    } else {
        assert(v2.inodes.dom() =~= v.inodes.dom());
    }
}

/// `open` hands out a descriptor that is not open, and closing it gives back
/// the descriptor table as it was.
pub proof fn lemma_open_then_close(v: FsView, path: Seq<char>, mode: OpenMode)
    requires
        view_wf(v),
        open_spec(v, path, mode).0 is Ok,
    ensures
        ({
            let fd = open_spec(v, path, mode).0->Ok_0;
            let v1 = open_spec(v, path, mode).1;
            &&& !v.fds.contains_key(fd)
            &&& v1.fds.contains_key(fd)
            &&& close_spec(v1, fd).0 is Ok
            &&& close_spec(v1, fd).1 == (FsView { next_fd: v1.next_fd, ..v })
        }),
{
    let fd = open_spec(v, path, mode).0->Ok_0;
    let v1 = open_spec(v, path, mode).1;
    assert(close_spec(v1, fd).1.fds =~= v.fds);
    assert(close_spec(v1, fd).1 =~= (FsView { next_fd: v1.next_fd, ..v }));
}

/// Unmounting a path just mounted, where nothing was mounted before, gives
/// back the mount table as it was.
pub proof fn lemma_mount_then_unmount(v: FsView, mount_path: Seq<char>, label: Seq<char>)
    requires
        mount_spec(v, mount_path, label).0 is Ok,
        !mount_paths(v.mounts).contains(mount_path),
    ensures
        unmount_spec(mount_spec(v, mount_path, label).1, mount_path).0 is Ok,
        unmount_spec(mount_spec(v, mount_path, label).1, mount_path).1.mounts == v.mounts,
{
    let v1 = mount_spec(v, mount_path, label).1;
    let ps = mount_paths(v1.mounts);
    ps.index_of_first_ensures(mount_path);
    assert(ps[v.mounts.len() as int] == mount_path);
    assert(ps.contains(mount_path));
    let i = ps.index_of_first(mount_path)->Some_0;
    if i < v.mounts.len() {
        assert(mount_paths(v.mounts)[i] == mount_path);
    }
    assert(i == v.mounts.len());
    assert(v1.mounts.remove(i) =~= v.mounts);
}

/// Scanning a mount table with one more entry at its end agrees with the
/// scan of the table itself over its own entries.
proof fn lemma_mount_scan_push(
    ms: Seq<crate::mount::MountView>,
    m: crate::mount::MountView,
    path: Seq<char>,
    n: nat,
    default: InodeId,
)
    requires
        n <= ms.len(),
    ensures
        crate::model::mount_scan(ms.push(m), path, n, default) == crate::model::mount_scan(
            ms,
            path,
            n,
            default,
        ),
    decreases n,
{
    if n > 0 {
        lemma_mount_scan_push(ms, m, path, (n - 1) as nat, default);
        assert(ms.push(m)[n - 1] == ms[n - 1]);
    }
}

/// A mount path that applies to `p` is, without trailing slashes, no longer
/// than `p` without trailing slashes, and as long only where the two agree.
proof fn lemma_mount_match_bound(p: Seq<char>, mp: Seq<char>)
    requires
        crate::model::mount_matches(p, mp),
    ensures
        trim_end_slashes(mp).len() <= trim_end_slashes(p).len(),
        trim_end_slashes(mp).len() == trim_end_slashes(p).len() ==> trim_end_slashes(mp)
            == trim_end_slashes(p),
{
    let e = trim_end_slashes(mp);
    let r = trim_end_slashes(p);
    crate::path::lemma_trim_end_slashes(mp);
    crate::path::lemma_trim_end_slashes(p);
    let k = e.len() as int;
    if k > r.len() {
        assert(e.last() == p[k - 1]);
    }
    if k == r.len() {
        assert(e =~= r);
    }
}

/// A mount path applies to itself.
proof fn lemma_mount_matches_self(p: Seq<char>)
    ensures
        crate::model::mount_matches(p, p),
{
    crate::path::lemma_trim_end_slashes(p);
}

/// Where no mount path agrees with `path` up to trailing slashes, every match
/// found is shorter than `path` without its trailing slashes.
proof fn lemma_mount_scan_shorter(
    ms: Seq<crate::mount::MountView>,
    path: Seq<char>,
    n: nat,
    default: InodeId,
)
    requires
        n <= ms.len(),
        forall|j: int| 0 <= j < ms.len() ==> trim_end_slashes((#[trigger] ms[j]).path) != trim_end_slashes(path),
    ensures
        crate::model::mount_scan(ms, path, n, default).0 <= trim_end_slashes(path).len(),
    decreases n,
{
    if n > 0 {
        lemma_mount_scan_shorter(ms, path, (n - 1) as nat, default);
        let mp = ms[n - 1].path;
        if crate::model::mount_matches(path, mp) {
            lemma_mount_match_bound(path, mp);
        }
    }
}

/// After a successful `mount` at a path where nothing was mounted before (up
/// to trailing slashes), the path leads to the new, empty filesystem: it
/// resolves to the new root and lists no entries.
pub proof fn lemma_mount_then_resolve(v: FsView, mount_path: Seq<char>, label: Seq<char>)
    requires
        view_wf(v),
        forall|j: int| 0 <= j < v.mounts.len() ==> trim_end_slashes((#[trigger] v.mounts[j]).path)
            != trim_end_slashes(mount_path),
    ensures
        mount_spec(v, mount_path, label).0 is Ok ==> {
            let v1 = mount_spec(v, mount_path, label).1;
            &&& resolve_follow(v1, mount_path) == Ok::<InodeId, FsError>(v.next_inode)
            &&& resolve_no_follow(v1, mount_path) == Ok::<InodeId, FsError>(v.next_inode)
            &&& list_dir_spec(v1, mount_path) == Ok::<Set<Seq<char>>, FsError>(Set::empty())
        },
{
    if mount_spec(v, mount_path, label).0 is Ok {
        let v1 = mount_spec(v, mount_path, label).1;
        let id = v.next_inode;
        let comps = split_path_spec(mount_path)->Ok_0;
        assert(split_path_spec(mount_path) is Ok);
        let m = crate::mount::MountView { path: mount_path, root: id, label };
        assert(v1.mounts == v.mounts.push(m));
        lemma_mount_scan_push(v.mounts, m, mount_path, v.mounts.len(), v.root);
        lemma_mount_scan_shorter(v.mounts, mount_path, v.mounts.len(), v.root);
        assert(v1.mounts[v.mounts.len() as int] == m);
        lemma_mount_matches_self(mount_path);
        assert(crate::model::mount_skip_spec(v1, mount_path) == comps.len());
        assert(mount_root_spec(v1, mount_path) == id);
        assert(v1.inodes[id] == new_dir_view(id, crate::model::perms_all()));
        assert(new_dir_view(id, crate::model::perms_all()).kind->Directory_0.dom() =~= Set::<
            Seq<char>,
        >::empty());
    }
}

/// A successful `hard_link` makes the new name refer to the inode the existing
/// path resolves to, and counts one more link to it.
pub proof fn lemma_hard_link_shares_inode(v: FsView, existing: Seq<char>, new_path: Seq<char>)
    requires
        hard_link_spec(v, existing, new_path).0 is Ok,
        crate::model::hard_link_fits(v, existing, new_path),
    ensures
        ({
            let (eid, pid, name) = hard_link_check_spec(v, existing, new_path)->Ok_0;
            let v1 = hard_link_spec(v, existing, new_path).1;
            &&& resolve_follow(v, existing) == Ok::<InodeId, FsError>(eid)
            &&& v1.inodes[pid].kind == KindView::Directory(
                v.inodes[pid].kind->Directory_0.insert(name, eid),
            )
            &&& v1.inodes[eid].link_count == v.inodes[eid].link_count + 1
            &&& v1.inodes[eid].kind == v.inodes[eid].kind
        }),
{
    let (eid, pid, name) = hard_link_check_spec(v, existing, new_path)->Ok_0;
    assert(eid != pid);
}

/// A successful `mkdir` adds the new name to the parent directory, pointing at
/// a fresh empty directory, and counts one more link to the parent.
pub proof fn lemma_mkdir_adds_entry(v: FsView, path: Seq<char>, perms: Permissions)
    requires
        view_wf(v),
        mkdir_spec(v, path, perms).0 is Ok,
        crate::model::mkdir_fits(v, path),
    ensures
        ({
            let (pid, name) = validate_create_spec(v, path)->Ok_0;
            let id = mkdir_spec(v, path, perms).0->Ok_0;
            let v1 = mkdir_spec(v, path, perms).1;
            &&& v1.inodes[pid].kind == KindView::Directory(
                v.inodes[pid].kind->Directory_0.insert(name, id),
            )
            &&& !v.inodes[pid].kind->Directory_0.contains_key(name)
            &&& v1.inodes[pid].link_count == v.inodes[pid].link_count + 1
            &&& v1.inodes[id] == new_dir_view(id, perms)
        }),
{
    let (pid, name) = validate_create_spec(v, path)->Ok_0;
    assert(pid != v.next_inode);
}

/// A successful `unlink` or `rmdir` takes the name out of the parent directory.
pub proof fn lemma_remove_drops_entry(v: FsView, path: Seq<char>)
    ensures
        unlink_spec(v, path).0 is Ok ==> ({
            let (pid, name, cid) = validate_remove_spec(v, path)->Ok_0;
            unlink_spec(v, path).1.inodes[pid].kind == KindView::Directory(
                v.inodes[pid].kind->Directory_0.remove(name),
            )
        }),
        crate::model::rmdir_spec(v, path).0 is Ok ==> ({
            let (pid, name, cid) = validate_remove_spec(v, path)->Ok_0;
            &&& pid != cid ==> crate::model::rmdir_spec(v, path).1.inodes[pid].kind
                == KindView::Directory(v.inodes[pid].kind->Directory_0.remove(name))
            &&& !crate::model::rmdir_spec(v, path).1.inodes.contains_key(cid)
        }),
{
    if validate_remove_spec(v, path) is Ok {
        let (pid, name, cid) = validate_remove_spec(v, path)->Ok_0;
        if unlink_spec(v, path).0 is Ok {
            assert(pid != cid);
        }
    }
}

/// `rmdir` right after a successful `mkdir` of the same path succeeds and
/// gives back the filesystem as it was; only the inode counter has moved on.
pub proof fn lemma_mkdir_then_rmdir(v: FsView, path: Seq<char>, perms: Permissions)
    requires
        view_wf(v),
        crate::model::mkdir_fits(v, path),
    ensures
        mkdir_spec(v, path, perms).0 is Ok ==> crate::model::rmdir_spec(
            mkdir_spec(v, path, perms).1,
            path,
        ) == (Ok::<(), FsError>(()), FsView { next_inode: mkdir_spec(v, path, perms).1.next_inode, ..v }),
{
    if mkdir_spec(v, path, perms).0 is Ok {
        let (pp, name) = parent_and_name_spec(path)->Ok_0;
        let (pid, nm) = validate_create_spec(v, path)->Ok_0;
        let id = v.next_inode;
        let v1 = mkdir_spec(v, path, perms).1;
        lemma_creation_extends_namespace(v, path, path, perms);
        lemma_resolve_extends(v, v1, pp, true, 0);
        let ch = v.inodes[pid].kind->Directory_0;
        assert(pid != id);
        assert(v1.inodes[pid].kind == KindView::Directory(ch.insert(name, id)));
        assert(validate_remove_spec(v1, path) == Ok::<(InodeId, Seq<char>, InodeId), FsError>((pid, name, id)));
        assert(v1.inodes[id] == new_dir_view(id, perms));
        assert(new_dir_view(id, perms).kind->Directory_0.is_empty()) by {
            assert(new_dir_view(id, perms).kind->Directory_0.dom() =~= Set::<Seq<char>>::empty());
        }
        assert(ch.insert(name, id).remove(name) =~= ch);
        let r = crate::model::rmdir_spec(v1, path).1;
        assert(r.inodes[pid] == v.inodes[pid]);
        assert(!v.inodes.contains_key(id));
        assert(r.inodes =~= v.inodes);
        assert(r =~= FsView { next_inode: v1.next_inode, ..v });
    }
}

/// After `mkdir` and then `rmdir` of the same path, the path no longer
/// resolves. Stated where the path is made of its parent's components and one
/// more ordinary name, and the same mount point (or none) applies to the path
/// and its parent and takes up no more than the parent's components, so that
/// no mount point sits at the path itself.
pub proof fn lemma_mkdir_then_rmdir_gone(v: FsView, path: Seq<char>, perms: Permissions)
    requires
        view_wf(v),
        crate::model::mkdir_fits(v, path),
        parent_and_name_spec(path) is Ok,
        !crate::model::is_dot_name(parent_and_name_spec(path)->Ok_0.1),
        split_path_spec(parent_and_name_spec(path)->Ok_0.0) is Ok,
        split_path_spec(path) == Ok::<Seq<Seq<char>>, FsError>(
            split_path_spec(parent_and_name_spec(path)->Ok_0.0)->Ok_0.push(
                parent_and_name_spec(path)->Ok_0.1,
            ),
        ),
        mount_root_spec(v, path) == mount_root_spec(v, parent_and_name_spec(path)->Ok_0.0),
        crate::model::mount_skip_spec(v, path) == crate::model::mount_skip_spec(
            v,
            parent_and_name_spec(path)->Ok_0.0,
        ),
        crate::model::mount_skip_spec(v, path) <= split_path_spec(
            parent_and_name_spec(path)->Ok_0.0,
        )->Ok_0.len(),
    ensures
        mkdir_spec(v, path, perms).0 is Ok ==> resolve_follow(
            crate::model::rmdir_spec(mkdir_spec(v, path, perms).1, path).1,
            path,
        ) == Err::<InodeId, FsError>(FsError::NotFound),
{
    if mkdir_spec(v, path, perms).0 is Ok {
        lemma_mkdir_then_rmdir(v, path, perms);
        let v1 = mkdir_spec(v, path, perms).1;
        let r = crate::model::rmdir_spec(v1, path).1;
        assert(same_namespace(v, r)) by {
            assert forall|id: InodeId| #[trigger] v.inodes.contains_key(id) implies same_shape(
                v.inodes[id].kind,
                r.inodes[id].kind,
            ) by {
                match v.inodes[id].kind {
                    KindView::File(_) => {},
                    _ => {},
                }
            }
        }
        lemma_resolve_same_namespace(v, r, path, true, 0);
        let (pp, name) = parent_and_name_spec(path)->Ok_0;
        let (pid, nm) = validate_create_spec(v, path)->Ok_0;
        let pcomps = split_path_spec(pp)->Ok_0;
        let mr = mount_root_spec(v, path);
        let sk = crate::model::mount_skip_spec(v, path);
        assert(seq![name][0] == name);
        if pcomps.len() > sk {
            lemma_walk_push(v, pcomps, sk, mr, 0, name, true);
        } else {
            lemma_walk_last(v, pcomps.push(name), sk, mr, true, 0);
        }
    }
}

/// A successful `rename` moves the entry: the new parent maps the new name to
/// the inode the old name referred to, and the old name is gone from the old
/// parent when that is another directory.
pub proof fn lemma_rename_moves_entry(v: FsView, old_path: Seq<char>, new_path: Seq<char>)
    requires
        crate::model::rename_spec(v, old_path, new_path).0 is Ok,
    ensures
        ({
            let (op, on) = parent_and_name_spec(old_path)->Ok_0;
            let (np, nn) = parent_and_name_spec(new_path)->Ok_0;
            let opid = resolve_follow(v, op)->Ok_0;
            let npid = resolve_follow(v, np)->Ok_0;
            let child = v.inodes[opid].kind->Directory_0[on];
            let v1 = crate::model::rename_spec(v, old_path, new_path).1;
            &&& v1.inodes[npid].kind->Directory_0.contains_key(nn)
            &&& v1.inodes[npid].kind->Directory_0[nn] == child
            &&& opid != npid ==> v1.inodes[opid].kind == KindView::Directory(
                v.inodes[opid].kind->Directory_0.remove(on),
            )
            &&& v1.inodes.dom() == v.inodes.dom()
        }),
{
    let (op, on) = parent_and_name_spec(old_path)->Ok_0;
    let (np, nn) = parent_and_name_spec(new_path)->Ok_0;
    let opid = resolve_follow(v, op)->Ok_0;
    let npid = resolve_follow(v, np)->Ok_0;
    let v1 = crate::model::rename_spec(v, old_path, new_path).1;
    assert(v1.inodes.dom() =~= v.inodes.dom());
}

/// A resolution result with a symlink in its place followed once more.
pub open spec fn follow_symlink_result(v: FsView, r: Result<InodeId, FsError>, depth: nat) -> Result<
    InodeId,
    FsError,
> {
    match r {
        Ok(id) => if v.inodes.contains_key(id) {
            match v.inodes[id].kind {
                KindView::Symlink(t) => resolve_spec(v, t, true, depth + 1),
                _ => Ok(id),
            }
        } else {
            Ok(id)
        },
        Err(e) => Err(e),
    }
}

proof fn lemma_walk_follow(v: FsView, comps: Seq<Seq<char>>, i: nat, cur: InodeId, depth: nat)
    requires
        i < comps.len() || !(v.inodes.contains_key(cur) && v.inodes[cur].kind is Symlink),
    ensures
        walk_spec(v, comps, i, cur, true, depth) == follow_symlink_result(
            v,
            walk_spec(v, comps, i, cur, false, depth),
            depth,
        ),
    decreases comps.len() - i,
{
    if depth <= v.max_depth && v.inodes.contains_key(cur) && i + 1 < comps.len() {
        let deref = match v.inodes[cur].kind {
            KindView::Symlink(t) => resolve_spec(v, t, true, depth + 1),
            _ => Ok(cur),
        };
        if let Ok(c1) = deref {
            if v.inodes.contains_key(c1) {
                let step = crate::model::lookup_spec(v, c1, comps[i as int]);
                if let Ok(c2) = step {
                    lemma_walk_follow(v, comps, i + 1, c2, depth);
                }
            }
        }
    }
}

/// `stat` and `lstat` differ only in the last position: where `lstat` finds a
/// symlink, `stat` goes on to where that symlink leads.
pub proof fn lemma_follow_last_symlink(v: FsView, path: Seq<char>)
    requires
        view_wf(v),
    ensures
        resolve_follow(v, path) == follow_symlink_result(v, resolve_no_follow(v, path), 0),
{
    if let Ok(comps) = split_path_spec(path) {
        lemma_mount_root_not_symlink(v, path);
        lemma_walk_follow(
            v,
            comps,
            crate::model::mount_skip_spec(v, path),
            mount_root_spec(v, path),
            0,
        );
    }
}

/// A resolution that did not run into the symlink limit gives the same result
/// when it starts with fewer symlinks already followed.
pub proof fn lemma_resolve_depth(v: FsView, path: Seq<char>, follow: bool, d1: nat, d2: nat)
    requires
        d1 <= d2,
        resolve_spec(v, path, follow, d2) != Err::<InodeId, FsError>(FsError::SymlinkLoop),
    ensures
        resolve_spec(v, path, follow, d1) == resolve_spec(v, path, follow, d2),
    decreases depth_fuel(v, d2), 1nat, 0nat,
{
    if let Ok(comps) = split_path_spec(path) {
        lemma_walk_depth(
            v,
            comps,
            crate::model::mount_skip_spec(v, path),
            mount_root_spec(v, path),
            follow,
            d1,
            d2,
        );
    }
}

/// The walk over components, like `resolve_spec`, does not depend on the depth
/// it starts at unless it runs into the symlink limit.
pub proof fn lemma_walk_depth(
    v: FsView,
    comps: Seq<Seq<char>>,
    i: nat,
    cur: InodeId,
    follow: bool,
    d1: nat,
    d2: nat,
)
    requires
        d1 <= d2,
        walk_spec(v, comps, i, cur, follow, d2) != Err::<InodeId, FsError>(FsError::SymlinkLoop),
    ensures
        walk_spec(v, comps, i, cur, follow, d1) == walk_spec(v, comps, i, cur, follow, d2),
    decreases depth_fuel(v, d2), 0nat, comps.len() - i,
{
    if d2 <= v.max_depth && i < comps.len() && v.inodes.contains_key(cur) {
        if let KindView::Symlink(t) = v.inodes[cur].kind {
            if resolve_spec(v, t, true, d2 + 1) != Err::<InodeId, FsError>(FsError::SymlinkLoop) {
                lemma_resolve_depth(v, t, true, d1 + 1, d2 + 1);
            }
        }
        let deref = match v.inodes[cur].kind {
            KindView::Symlink(t) => resolve_spec(v, t, true, d2 + 1),
            _ => Ok(cur),
        };
        if let Ok(c1) = deref {
            if v.inodes.contains_key(c1) {
                if let Ok(c2) = crate::model::lookup_spec(v, c1, comps[i as int]) {
                    if i + 1 == comps.len() {
                        if v.inodes.contains_key(c2) {
                            if let KindView::Symlink(t) = v.inodes[c2].kind {
                                if follow {
                                    lemma_resolve_depth(v, t, true, d1 + 1, d2 + 1);
                                }
                            }
                        }
                    } else {
                        lemma_walk_depth(v, comps, i + 1, c2, follow, d1, d2);
                    }
                }
            }
        }
    }
}

/// `lstat` and `stat` agree on everything but a final symlink; where `lstat`
/// finds a symlink, `stat` finds what its target resolves to, unless the chain
/// of symlinks runs into the depth limit.
pub proof fn lemma_stat_lstat(v: FsView, path: Seq<char>)
    requires
        view_wf(v),
    ensures
        match resolve_no_follow(v, path) {
            Err(e) => resolve_follow(v, path) == Err::<InodeId, FsError>(e),
            Ok(id) => if v.inodes.contains_key(id) && v.inodes[id].kind is Symlink {
                resolve_follow(v, path) != Err::<InodeId, FsError>(FsError::SymlinkLoop)
                    ==> resolve_follow(v, path) == resolve_follow(
                    v,
                    v.inodes[id].kind->Symlink_0,
                )
            } else {
                resolve_follow(v, path) == Ok::<InodeId, FsError>(id)
            },
        },
{
    lemma_follow_last_symlink(v, path);
    if let Ok(id) = resolve_no_follow(v, path) {
        if v.inodes.contains_key(id) {
            if let KindView::Symlink(t) = v.inodes[id].kind {
                if resolve_follow(v, path) != Err::<InodeId, FsError>(FsError::SymlinkLoop) {
                    lemma_resolve_depth(v, t, true, 0, 1);
                }
            }
        }
    }
}

/// `b` holds at least what `a` holds: the same file kind, the same symlink, or
/// a directory with every entry of `a` and possibly more.
pub open spec fn kind_extends(a: KindView, b: KindView) -> bool {
    match (a, b) {
        (KindView::File(_), KindView::File(_)) => true,
        (KindView::Directory(x), KindView::Directory(y)) => forall|k: Seq<char>|
            #[trigger] x.contains_key(k) ==> y.contains_key(k) && y[k] == x[k],
        (KindView::Symlink(x), KindView::Symlink(y)) => x == y,
        _ => false,
    }
}

/// `v2`'s namespace extends `v1`'s: every inode of `v1` is still there with an
/// extended kind, and the roots, mounts and symlink limit are the same.
pub open spec fn namespace_extends(v1: FsView, v2: FsView) -> bool {
    &&& v1.root == v2.root
    &&& v1.mounts == v2.mounts
    &&& v1.max_depth == v2.max_depth
    &&& forall|id: InodeId| #[trigger] v1.inodes.contains_key(id) ==> v2.inodes.contains_key(id)
        && kind_extends(v1.inodes[id].kind, v2.inodes[id].kind)
}

/// A path that resolves keeps resolving to the same inode when the namespace
/// only grows.
pub proof fn lemma_resolve_extends(v1: FsView, v2: FsView, path: Seq<char>, follow: bool, depth: nat)
    requires
        namespace_extends(v1, v2),
        resolve_spec(v1, path, follow, depth) is Ok,
    ensures
        resolve_spec(v2, path, follow, depth) == resolve_spec(v1, path, follow, depth),
    decreases depth_fuel(v1, depth), 1nat, 0nat,
{
    if depth <= v1.max_depth {
        if let Ok(comps) = split_path_spec(path) {
            assert(mount_root_spec(v1, path) == mount_root_spec(v2, path));
            lemma_walk_extends(v1, v2, comps, crate::model::mount_skip_spec(v1, path), mount_root_spec(v1, path), follow, depth);
        }
    }
}

/// The walk over components, like `resolve_spec`, keeps its successful results
/// when the namespace only grows.
pub proof fn lemma_walk_extends(
    v1: FsView,
    v2: FsView,
    comps: Seq<Seq<char>>,
    i: nat,
    cur: InodeId,
    follow: bool,
    depth: nat,
)
    requires
        namespace_extends(v1, v2),
        walk_spec(v1, comps, i, cur, follow, depth) is Ok,
    ensures
        walk_spec(v2, comps, i, cur, follow, depth) == walk_spec(v1, comps, i, cur, follow, depth),
    decreases depth_fuel(v1, depth), 0nat, comps.len() - i,
{
    if depth <= v1.max_depth && i < comps.len() {
        assert(v1.inodes.contains_key(cur));
        assert(kind_extends(v1.inodes[cur].kind, v2.inodes[cur].kind));
        if let KindView::Symlink(t) = v1.inodes[cur].kind {
            lemma_resolve_extends(v1, v2, t, true, depth + 1);
        }
        let deref = match v1.inodes[cur].kind {
            KindView::Symlink(t) => resolve_spec(v1, t, true, depth + 1),
            _ => Ok(cur),
        };
        let c1 = deref->Ok_0;
        assert(v1.inodes.contains_key(c1));
        assert(kind_extends(v1.inodes[c1].kind, v2.inodes[c1].kind));
        let is_last = i + 1 == comps.len();
        let step = crate::model::lookup_spec(v1, c1, comps[i as int]);
        let c2 = step->Ok_0;
        if is_last {
            assert(v1.inodes.contains_key(c2));
            assert(kind_extends(v1.inodes[c2].kind, v2.inodes[c2].kind));
            if let KindView::Symlink(t) = v1.inodes[c2].kind {
                if follow {
                    lemma_resolve_extends(v1, v2, t, true, depth + 1);
                }
            }
        } else {
            lemma_walk_extends(v1, v2, comps, i + 1, c2, follow, depth);
        }
    }
}

/// Creating a directory, a file, a symlink or a hard link only grows the namespace.
pub proof fn lemma_creation_extends_namespace(
    v: FsView,
    path: Seq<char>,
    other: Seq<char>,
    perms: Permissions,
)
    requires
        view_wf(v),
    ensures
        mkdir_spec(v, path, perms).0 is Ok ==> namespace_extends(v, mkdir_spec(v, path, perms).1),
        create_file_spec(v, path, perms).0 is Ok ==> namespace_extends(
            v,
            create_file_spec(v, path, perms).1,
        ),
        create_symlink_spec(v, path, other).0 is Ok ==> namespace_extends(
            v,
            create_symlink_spec(v, path, other).1,
        ),
        hard_link_spec(v, other, path).0 is Ok ==> namespace_extends(
            v,
            hard_link_spec(v, other, path).1,
        ),
{
    if validate_create_spec(v, path) is Ok {
        let (pid, name) = validate_create_spec(v, path)->Ok_0;
        assert(pid != v.next_inode);
        let v1 = mkdir_spec(v, path, perms).1;
        assert forall|id: InodeId| #[trigger] v.inodes.contains_key(id) implies v1.inodes.contains_key(
            id,
        ) && kind_extends(v.inodes[id].kind, v1.inodes[id].kind) by {
            match v.inodes[id].kind {
                KindView::File(_) => {},
                _ => {},
            }
        }
        let v2 = create_file_spec(v, path, perms).1;
        assert forall|id: InodeId| #[trigger] v.inodes.contains_key(id) implies v2.inodes.contains_key(
            id,
        ) && kind_extends(v.inodes[id].kind, v2.inodes[id].kind) by {
            match v.inodes[id].kind {
                KindView::File(_) => {},
                _ => {},
            }
        }
        let v3 = create_symlink_spec(v, path, other).1;
        assert forall|id: InodeId| #[trigger] v.inodes.contains_key(id) implies v3.inodes.contains_key(
            id,
        ) && kind_extends(v.inodes[id].kind, v3.inodes[id].kind) by {
            match v.inodes[id].kind {
                KindView::File(_) => {},
                _ => {},
            }
        }
    }
    if hard_link_check_spec(v, other, path) is Ok {
        let (eid, pid, name) = hard_link_check_spec(v, other, path)->Ok_0;
        assert(eid != pid);
        let v4 = hard_link_spec(v, other, path).1;
        assert forall|id: InodeId| #[trigger] v.inodes.contains_key(id) implies v4.inodes.contains_key(
            id,
        ) && kind_extends(v.inodes[id].kind, v4.inodes[id].kind) by {
            match v.inodes[id].kind {
                KindView::File(_) => {},
                _ => {},
            }
        }
    }
}

/// After a successful `mkdir` or `create_file`, listing the parent directory
/// shows the new name besides the old ones.
pub proof fn lemma_create_then_list(v: FsView, path: Seq<char>, perms: Permissions)
    requires
        view_wf(v),
    ensures
        mkdir_spec(v, path, perms).0 is Ok ==> ({
            let (pp, name) = parent_and_name_spec(path)->Ok_0;
            list_dir_spec(mkdir_spec(v, path, perms).1, pp) == match list_dir_spec(v, pp) {
                Ok(names) => Ok::<Set<Seq<char>>, FsError>(names.insert(name)),
                Err(e) => Err(e),
            }
        }),
        create_file_spec(v, path, perms).0 is Ok ==> ({
            let (pp, name) = parent_and_name_spec(path)->Ok_0;
            list_dir_spec(create_file_spec(v, path, perms).1, pp) == match list_dir_spec(v, pp) {
                Ok(names) => Ok::<Set<Seq<char>>, FsError>(names.insert(name)),
                Err(e) => Err(e),
            }
        }),
{
    if validate_create_spec(v, path) is Ok {
        let (pp, name) = parent_and_name_spec(path)->Ok_0;
        let (pid, nm) = validate_create_spec(v, path)->Ok_0;
        assert(nm == name);
        lemma_creation_extends_namespace(v, path, path, perms);
        let ch = v.inodes[pid].kind->Directory_0;
        let v1 = mkdir_spec(v, path, perms).1;
        lemma_resolve_extends(v, v1, pp, true, 0);
        assert(v1.inodes[pid].kind->Directory_0.dom() =~= ch.dom().insert(name));
        let v2 = create_file_spec(v, path, perms).1;
        lemma_resolve_extends(v, v2, pp, true, 0);
        assert(v2.inodes[pid].kind->Directory_0.dom() =~= ch.dom().insert(name));
    }
}

proof fn lemma_mount_scan_origin(ms: Seq<crate::mount::MountView>, path: Seq<char>, n: nat, default: InodeId)
    requires
        n <= ms.len(),
    ensures
        crate::model::mount_scan(ms, path, n, default).1 == default || exists|j: int|
            0 <= j < n && #[trigger] ms[j].root == crate::model::mount_scan(ms, path, n, default).1,
    decreases n,
{
    if n > 0 {
        lemma_mount_scan_origin(ms, path, (n - 1) as nat, default);
    }
}

proof fn lemma_mount_root_not_symlink(v: FsView, path: Seq<char>)
    requires
        roots_not_symlinks(v),
    ensures
        !(v.inodes.contains_key(mount_root_spec(v, path)) && v.inodes[mount_root_spec(
            v,
            path,
        )].kind is Symlink),
{
    lemma_mount_scan_origin(v.mounts, path, v.mounts.len(), v.root);
}

/// Resolution that follows symlinks never ends on a symlink.
proof fn lemma_resolve_not_symlink(v: FsView, path: Seq<char>, depth: nat)
    requires
        roots_not_symlinks(v),
        resolve_spec(v, path, true, depth) is Ok,
    ensures
        !(v.inodes.contains_key(resolve_spec(v, path, true, depth)->Ok_0) && v.inodes[resolve_spec(
            v,
            path,
            true,
            depth,
        )->Ok_0].kind is Symlink),
    decreases depth_fuel(v, depth), 1nat, 0nat,
{
    let comps = split_path_spec(path)->Ok_0;
    lemma_mount_root_not_symlink(v, path);
    lemma_walk_not_symlink(v, comps, crate::model::mount_skip_spec(v, path), mount_root_spec(v, path), depth);
}

proof fn lemma_walk_not_symlink(v: FsView, comps: Seq<Seq<char>>, i: nat, cur: InodeId, depth: nat)
    requires
        roots_not_symlinks(v),
        walk_spec(v, comps, i, cur, true, depth) is Ok,
        i >= comps.len() ==> !(v.inodes.contains_key(cur) && v.inodes[cur].kind is Symlink),
    ensures
        !(v.inodes.contains_key(walk_spec(v, comps, i, cur, true, depth)->Ok_0) && v.inodes[walk_spec(
            v,
            comps,
            i,
            cur,
            true,
            depth,
        )->Ok_0].kind is Symlink),
    decreases depth_fuel(v, depth), 0nat, comps.len() - i,
{
    if depth <= v.max_depth && i < comps.len() {
        let deref = match v.inodes[cur].kind {
            KindView::Symlink(t) => resolve_spec(v, t, true, depth + 1),
            _ => Ok(cur),
        };
        let c1 = deref->Ok_0;
        let is_last = i + 1 == comps.len();
        let step = crate::model::lookup_spec(v, c1, comps[i as int]);
        let c2 = step->Ok_0;
        if is_last {
            if let KindView::Symlink(t) = v.inodes[c2].kind {
                lemma_resolve_not_symlink(v, t, depth + 1);
            }
        } else {
            lemma_walk_not_symlink(v, comps, i + 1, c2, depth);
        }
    }
}

/// Walking one more component past a directory that a walk reached is a
/// one-component walk from that directory.
proof fn lemma_walk_push(
    v: FsView,
    comps: Seq<Seq<char>>,
    i: nat,
    cur: InodeId,
    depth: nat,
    name: Seq<char>,
    follow: bool,
)
    requires
        roots_not_symlinks(v),
        i < comps.len(),
        walk_spec(v, comps, i, cur, true, depth) is Ok,
        v.inodes.contains_key(walk_spec(v, comps, i, cur, true, depth)->Ok_0),
        v.inodes[walk_spec(v, comps, i, cur, true, depth)->Ok_0].kind is Directory,
    ensures
        walk_spec(v, comps.push(name), i, cur, follow, depth) == walk_spec(
            v,
            seq![name],
            0,
            walk_spec(v, comps, i, cur, true, depth)->Ok_0,
            follow,
            depth,
        ),
    decreases comps.len() - i,
{
    let x = walk_spec(v, comps, i, cur, true, depth)->Ok_0;
    let long = comps.push(name);
    assert(long[i as int] == comps[i as int]);
    if depth <= v.max_depth {
        if let KindView::Symlink(t) = v.inodes[cur].kind {
            lemma_resolve_not_symlink(v, t, depth + 1);
        }
        let deref = match v.inodes[cur].kind {
            KindView::Symlink(t) => resolve_spec(v, t, true, depth + 1),
            _ => Ok(cur),
        };
        let c1 = deref->Ok_0;
        let is_last = i + 1 == comps.len();
        let step = crate::model::lookup_spec(v, c1, comps[i as int]);
        let c2 = step->Ok_0;
        if is_last {
            assert(long[i + 1 as int] == name);
            assert(seq![name][0] == name);
            if let KindView::Symlink(t) = v.inodes[c2].kind {
                lemma_resolve_not_symlink(v, t, depth + 1);
            }
        } else {
            lemma_walk_push(v, comps, i + 1, c2, depth, name, follow);
        }
    }
}

/// After a successful `mkdir` or `create_file` at a path made of its parent's
/// components and one more ordinary name, where the same mount point (or none)
/// applies to the path and its parent and takes up no more than the parent's
/// components, the path resolves to the new inode.
pub proof fn lemma_create_then_resolve(v: FsView, path: Seq<char>, perms: Permissions)
    requires
        view_wf(v),
        parent_and_name_spec(path) is Ok,
        !crate::model::is_dot_name(parent_and_name_spec(path)->Ok_0.1),
        split_path_spec(parent_and_name_spec(path)->Ok_0.0) is Ok,
        split_path_spec(path) == Ok::<Seq<Seq<char>>, FsError>(
            split_path_spec(parent_and_name_spec(path)->Ok_0.0)->Ok_0.push(
                parent_and_name_spec(path)->Ok_0.1,
            ),
        ),
        mount_root_spec(v, path) == mount_root_spec(v, parent_and_name_spec(path)->Ok_0.0),
        crate::model::mount_skip_spec(v, path) == crate::model::mount_skip_spec(
            v,
            parent_and_name_spec(path)->Ok_0.0,
        ),
        crate::model::mount_skip_spec(v, path) <= split_path_spec(
            parent_and_name_spec(path)->Ok_0.0,
        )->Ok_0.len(),
    ensures
        mkdir_spec(v, path, perms).0 is Ok ==> resolve_follow(mkdir_spec(v, path, perms).1, path)
            == mkdir_spec(v, path, perms).0,
        create_file_spec(v, path, perms).0 is Ok ==> resolve_follow(
            create_file_spec(v, path, perms).1,
            path,
        ) == create_file_spec(v, path, perms).0,
{
    if validate_create_spec(v, path) is Ok {
        let (pp, name) = parent_and_name_spec(path)->Ok_0;
        let (pid, nm) = validate_create_spec(v, path)->Ok_0;
        let id = v.next_inode;
        let pcomps = split_path_spec(pp)->Ok_0;
        lemma_creation_extends_namespace(v, path, path, perms);
        let v1 = mkdir_spec(v, path, perms).1;
        let v2 = create_file_spec(v, path, perms).1;
        lemma_resolve_extends(v, v1, pp, true, 0);
        lemma_resolve_extends(v, v2, pp, true, 0);
        assert(roots_not_symlinks(v1)) by {
            assert forall|j: int|
                0 <= j < v1.mounts.len() implies !(v1.inodes.contains_key(#[trigger] v1.mounts[j].root)
                && v1.inodes[v1.mounts[j].root].kind is Symlink) by {
                let r = v.mounts[j].root;
                if v.inodes.contains_key(r) {
                    assert(kind_extends(v.inodes[r].kind, v1.inodes[r].kind));
                }
            }
            if v.inodes.contains_key(v.root) {
                assert(kind_extends(v.inodes[v.root].kind, v1.inodes[v.root].kind));
            }
        }
        assert(roots_not_symlinks(v2)) by {
            assert forall|j: int|
                0 <= j < v2.mounts.len() implies !(v2.inodes.contains_key(#[trigger] v2.mounts[j].root)
                && v2.inodes[v2.mounts[j].root].kind is Symlink) by {
                let r = v.mounts[j].root;
                if v.inodes.contains_key(r) {
                    assert(kind_extends(v.inodes[r].kind, v2.inodes[r].kind));
                }
            }
            if v.inodes.contains_key(v.root) {
                assert(kind_extends(v.inodes[v.root].kind, v2.inodes[v.root].kind));
            }
        }
        let mr = mount_root_spec(v, path);
        assert(mount_root_spec(v1, path) == mr);
        assert(mount_root_spec(v2, path) == mr);
        assert(mount_root_spec(v1, pp) == mr);
        assert(mount_root_spec(v2, pp) == mr);
        let sk = crate::model::mount_skip_spec(v, path);
        assert(crate::model::mount_skip_spec(v1, path) == sk);
        assert(crate::model::mount_skip_spec(v2, path) == sk);
        assert(crate::model::mount_skip_spec(v1, pp) == sk);
        assert(crate::model::mount_skip_spec(v2, pp) == sk);
        assert(seq![name][0] == name);
        if pcomps.len() > sk {
            lemma_walk_push(v1, pcomps, sk, mr, 0, name, true);
            lemma_walk_push(v2, pcomps, sk, mr, 0, name, true);
        } else {
            lemma_walk_last(v1, pcomps.push(name), sk, mr, true, 0);
            lemma_walk_last(v2, pcomps.push(name), sk, mr, true, 0);
        }
    }
}

/// A walk with one component left is a walk over that component alone.
proof fn lemma_walk_last(v: FsView, comps: Seq<Seq<char>>, i: nat, cur: InodeId, follow: bool, depth: nat)
    requires
        i + 1 == comps.len(),
    ensures
        walk_spec(v, comps, i, cur, follow, depth) == walk_spec(v, seq![comps[i as int]], 0, cur, follow, depth),
{
    assert(seq![comps[i as int]][0] == comps[i as int]);
}

/// Buffered reading is reading from the reader's own position. Where the
/// bytes a reader holds followed by the rest of the file are the file from
/// `pos` on, a buffered read of `len` bytes hands out what an unbuffered read
/// of `len` bytes from `pos` gives, leaves the descriptor of that unbuffered
/// read where the reader's position now is, and what the reader holds followed
/// by the rest of the file is again the file from there on.
pub proof fn lemma_buffered_read_is_read(v: FsView, fd: u32, held: Seq<u8>, pos: u64, len: nat)
    requires
        fd_file(v, fd, false) is Ok,
        fd_file(v, fd, false)->Ok_0.len() <= usize::MAX,
        pos <= fd_file(v, fd, false)->Ok_0.len(),
        held + file_rest(v, fd) == fd_file(v, fd, false)->Ok_0.skip(pos as int),
    ensures
        ({
            let d = fd_file(v, fd, false)->Ok_0;
            let stream = held + file_rest(v, fd);
            let out = prefix_upto(stream, len);
            let (r, after) = read_spec(with_offset(v, fd, pos), fd, len);
            &&& r == Ok::<Seq<u8>, FsError>(out)
            &&& after.fds[fd].offset == pos + out.len()
            &&& stream.skip(out.len() as int) == d.skip(pos + out.len())
        }),
{
    let d = fd_file(v, fd, false)->Ok_0;
    let stream = held + file_rest(v, fd);
    let w = with_offset(v, fd, pos);
    assert(fd_file(w, fd, false) == fd_file(v, fd, false));
    let out = prefix_upto(stream, len);
    if len < stream.len() {
        assert(out =~= d.subrange(pos as int, pos + len));
    } else {
        assert(out =~= d.subrange(pos as int, d.len() as int));
        if pos == d.len() {
            assert(out =~= Seq::<u8>::empty());
        }
    }
    assert(stream.skip(out.len() as int) =~= d.skip(pos + out.len()));
}

/// A reader that holds nothing stands where its descriptor is: on a readable
/// descriptor whose offset is within the file, reading through a new reader
/// starts at that offset.
pub proof fn lemma_new_reader_reads_at(v: FsView, fd: u32)
    requires
        fd_file(v, fd, false) is Ok,
        v.fds[fd].offset <= fd_file(v, fd, false)->Ok_0.len(),
    ensures
        reads_at(Seq::empty(), v, fd, v.fds[fd].offset as int),
{
    let d = fd_file(v, fd, false)->Ok_0;
    if v.fds[fd].offset == d.len() {
        assert(d.skip(d.len() as int) =~= Seq::<u8>::empty());
    }
    assert(Seq::<u8>::empty() + file_rest(v, fd) =~= file_rest(v, fd));
}

/// Successive reads from a position concatenate: `len1` bytes from `pos`, then
/// `len2` bytes from where those ended, are `len1 + len2` bytes from `pos`.
/// With the position a buffered reader keeps (`reads_at`), a history of
/// buffered reads gives the file's bytes in order, as unbuffered reads would.
pub proof fn lemma_reads_concat(d: Seq<u8>, pos: int, len1: int, len2: int)
    requires
        0 <= pos <= d.len(),
        0 <= len1,
        0 <= len2,
    ensures
        ({
            let first = d.subrange(pos, crate::model::min_int(d.len() as int, pos + len1));
            let second = d.subrange(
                pos + first.len(),
                crate::model::min_int(d.len() as int, pos + first.len() + len2),
            );
            first + second == d.subrange(pos, crate::model::min_int(d.len() as int, pos + len1 + len2))
        }),
{
    let first = d.subrange(pos, crate::model::min_int(d.len() as int, pos + len1));
    let second = d.subrange(
        pos + first.len(),
        crate::model::min_int(d.len() as int, pos + first.len() + len2),
    );
    assert(first + second =~= d.subrange(pos, crate::model::min_int(d.len() as int, pos + len1 + len2)));
}

/// Without mount points, where a path leads depends on its components alone.
proof fn lemma_resolve_by_components(v: FsView, p: Seq<char>, q: Seq<char>, follow: bool)
    requires
        v.mounts.len() == 0,
        split_path_spec(p) == split_path_spec(q),
    ensures
        resolve_spec(v, p, follow, 0) == resolve_spec(v, q, follow, 0),
{
}

/// `.` and empty components change nothing. Without mount points, a trimmed
/// path that resolves gives the same result with an extra leading slash or
/// two trailing slashes, and one that resolves to a directory gives the same
/// result with `/.` appended.
pub proof fn lemma_dot_and_empty_components(v: FsView, p: Seq<char>)
    requires
        view_wf(v),
        v.mounts.len() == 0,
        crate::path::trim(p) == p,
    ensures
        split_path_spec(p) is Ok ==> {
            &&& resolve_follow(v, seq!['/'] + p) == resolve_follow(v, p)
            &&& resolve_follow(v, p + seq!['/', '/']) == resolve_follow(v, p)
        },
        resolve_follow(v, p) is Ok && v.inodes.contains_key(resolve_follow(v, p)->Ok_0)
            && v.inodes[resolve_follow(v, p)->Ok_0].kind is Directory ==> resolve_follow(
            v,
            p + seq!['/', '.'],
        ) == resolve_follow(v, p),
{
    if split_path_spec(p) is Ok {
        let comps = split_path_spec(p)->Ok_0;
        assert(p.len() > 0 && p[0] == '/');
        crate::path::lemma_trimmed_ends(p);
        let a = seq!['/'] + p;
        crate::path::lemma_trim_unchanged(a);
        crate::path::lemma_components_prepend_slash(p);
        lemma_resolve_by_components(v, a, p, true);
        let b = p + seq!['/', '/'];
        assert(b == (p + seq!['/']) + seq!['/']);
        assert(b.last() == '/');
        assert(b[0] == p[0]);
        crate::path::lemma_trim_unchanged(b);
        crate::path::lemma_components_slash(p);
        crate::path::lemma_components_slash(p + seq!['/']);
        lemma_resolve_by_components(v, b, p, true);
        let c = p + seq!['/', '.'];
        assert(c == p + seq!['/'] + seq!['.']);
        assert(c.last() == '.');
        assert(c[0] == p[0]);
        crate::path::lemma_trim_unchanged(c);
        assert(!seq!['.'].contains('/')) by {
            if seq!['.'].contains('/') {
                let k = choose|k: int| 0 <= k < 1 && seq!['.'][k] == '/';
            }
        }
        crate::path::lemma_components_append(p, seq!['.']);
        assert(split_path_spec(c) == Ok::<Seq<Seq<char>>, FsError>(comps.push(seq!['.'])));
        if resolve_follow(v, p) is Ok {
            let d = resolve_follow(v, p)->Ok_0;
            if v.inodes.contains_key(d) && v.inodes[d].kind is Directory {
                assert(mount_root_spec(v, p) == v.root);
                assert(crate::model::mount_skip_spec(v, p) == 0);
                assert(mount_root_spec(v, c) == v.root);
                assert(crate::model::mount_skip_spec(v, c) == 0);
                assert(seq![seq!['.']][0] == seq!['.']);
                if comps.len() > 0 {
                    lemma_walk_push(v, comps, 0, v.root, 0, seq!['.'], true);
                } else {
                    assert(comps.push(seq!['.']) =~= seq![seq!['.']]);
                }
            }
        }
    }
}

/// `..` at the root stays at the root: without mount points, `/..` resolves
/// to the root.
pub proof fn lemma_root_parent_is_root(v: FsView)
    requires
        view_wf(v),
        crate::virtual_fs::root_ok(v),
        v.mounts.len() == 0,
    ensures
        resolve_follow(v, seq!['/', '.', '.']) == Ok::<InodeId, FsError>(v.root),
{
    let p = seq!['/', '.', '.'];
    crate::path::lemma_trim_unchanged(p);
    assert(!seq!['.', '.'].contains('/')) by {
        if seq!['.', '.'].contains('/') {
            let k = choose|k: int| 0 <= k < 2 && seq!['.', '.'][k] == '/';
        }
    }
    crate::path::lemma_components_append(Seq::empty(), seq!['.', '.']);
    assert(Seq::<char>::empty() + seq!['/'] + seq!['.', '.'] =~= p);
    assert(crate::path::pieces(Seq::<char>::empty()) == seq![Seq::<char>::empty()]);
    Seq::<Seq<char>>::empty().lemma_filter_push(Seq::<char>::empty(), |x: Seq<char>| x.len() > 0);
    assert(seq![Seq::<char>::empty()] =~= Seq::<Seq<char>>::empty().push(Seq::<char>::empty()));
    assert(Seq::<Seq<char>>::empty().filter(|x: Seq<char>| x.len() > 0) =~= Seq::<Seq<char>>::empty());
    assert(crate::path::components(Seq::<char>::empty()) =~= Seq::<Seq<char>>::empty());
    assert(split_path_spec(p) == Ok::<Seq<Seq<char>>, FsError>(seq![seq!['.', '.']]));
    assert(seq![seq!['.', '.']][0] == seq!['.', '.']);
}

/// Namespace extension is transitive.
proof fn lemma_extends_trans(v1: FsView, v2: FsView, v3: FsView)
    requires
        namespace_extends(v1, v2),
        namespace_extends(v2, v3),
    ensures
        namespace_extends(v1, v3),
{
    assert forall|id: InodeId| #[trigger] v1.inodes.contains_key(id) implies v3.inodes.contains_key(id)
        && kind_extends(v1.inodes[id].kind, v3.inodes[id].kind) by {
        assert(kind_extends(v1.inodes[id].kind, v2.inodes[id].kind));
        assert(kind_extends(v2.inodes[id].kind, v3.inodes[id].kind));
        match (v1.inodes[id].kind, v2.inodes[id].kind) {
            (KindView::Directory(x), KindView::Directory(y)) => {
                let z = v3.inodes[id].kind->Directory_0;
                assert forall|k: Seq<char>| #[trigger] x.contains_key(k) implies z.contains_key(k)
                    && z[k] == x[k] by {
                    assert(y.contains_key(k));
                }
            },
            _ => {},
        }
    }
}

/// A successful `mkdir` keeps the model well formed and the mounts as they are.
proof fn lemma_mkdir_keeps_wf(v: FsView, path: Seq<char>, perms: Permissions)
    requires
        view_wf(v),
        crate::model::mkdir_fits(v, path),
        mkdir_spec(v, path, perms).0 is Ok,
    ensures
        view_wf(mkdir_spec(v, path, perms).1),
        mkdir_spec(v, path, perms).1.mounts == v.mounts,
        namespace_extends(v, mkdir_spec(v, path, perms).1),
{
    let v1 = mkdir_spec(v, path, perms).1;
    lemma_creation_extends_namespace(v, path, path, perms);
    assert(v1.inodes.dom() =~= v.inodes.dom().insert(v.next_inode));
    assert(roots_not_symlinks(v1)) by {
        assert forall|j: int|
            0 <= j < v1.mounts.len() implies !(v1.inodes.contains_key(#[trigger] v1.mounts[j].root)
            && v1.inodes[v1.mounts[j].root].kind is Symlink) by {
            let r = v.mounts[j].root;
            if v.inodes.contains_key(r) {
                assert(kind_extends(v.inodes[r].kind, v1.inodes[r].kind));
            }
        }
        if v.inodes.contains_key(v.root) {
            assert(kind_extends(v.inodes[v.root].kind, v1.inodes[v.root].kind));
        }
    }
}

/// Where `mkdir_p` stands after `i` components: the path built so far.
pub open spec fn built_path(q: Seq<char>, comps: Seq<Seq<char>>, i: nat) -> bool {
    if i == 0 {
        q == Seq::<char>::empty()
    } else {
        &&& q.len() > 0
        &&& q[0] == '/'
        &&& !crate::path::is_ws(q.last())
        &&& q.last() != '/'
        &&& crate::path::components(q) == comps.take(i as int)
        &&& forall|k: int|
            0 < k < q.len() && #[trigger] q[k] == '/' ==> !crate::path::is_ws(q[k - 1]) && q[k - 1]
                != '/'
    }
}

/// The parent that `mkdir` sees for the path `mkdir_p` builds at step `i`.
pub open spec fn built_parent(q: Seq<char>, i: nat) -> Seq<char> {
    if i == 0 {
        seq!['/']
    } else {
        q
    }
}

/// The path `mkdir_p` builds at step `i`: its components, its parent, and how
/// a trailing space in the component is trimmed away.
proof fn lemma_built_path_step(q: Seq<char>, comps: Seq<Seq<char>>, i: nat)
    requires
        i < comps.len(),
        built_path(q, comps, i),
        comps[i as int].len() > 0,
        !comps[i as int].contains('/'),
    ensures
        ({
            let c = comps[i as int];
            let p = q + seq!['/'] + c;
            let n = crate::path::trim_end(c);
            let parent = built_parent(q, i);
            &&& p.len() > 0
            &&& p[0] == '/'
            &&& p.last() != '/'
            &&& crate::path::components(p) == comps.take(i + 1 as int)
            &&& split_path_spec(parent) == Ok::<Seq<Seq<char>>, FsError>(comps.take(i as int))
            &&& n.len() == 0 ==> split_path_spec(p) == Ok::<Seq<Seq<char>>, FsError>(
                comps.take(i as int),
            )
            &&& n.len() > 0 ==> {
                &&& split_path_spec(p) == Ok::<Seq<Seq<char>>, FsError>(comps.take(i as int).push(n))
                &&& parent_and_name_spec(p) == Ok::<(Seq<char>, Seq<char>), FsError>((parent, n))
            }
            &&& !crate::path::is_ws(c.last()) ==> n == c && built_path(p, comps, i + 1)
        }),
{
    let c = comps[i as int];
    let p = q + seq!['/'] + c;
    let n = crate::path::trim_end(c);
    let s0 = q + seq!['/'];
    assert(p == s0 + c);
    assert(p.last() == c.last()) by {
        assert(c[c.len() - 1] == c.last());
    }
    assert(c.last() != '/') by {
        assert(c[c.len() - 1] == c.last());
    }
    assert(p[0] == '/') by {
        if i > 0 {
            assert(p[0] == q[0]);
        }
    }
    assert(s0.last() == '/');
    assert(s0[0] == '/') by {
        if i > 0 {
            assert(s0[0] == q[0]);
        }
    }
    crate::path::lemma_components_append(q, c);
    crate::path::lemma_components_empty();
    assert(comps.take(i as int).push(c) =~= comps.take(i + 1 as int));
    if i == 0 {
        assert(comps.take(0) =~= Seq::<Seq<char>>::empty());
    }
    // The parent.
    if i > 0 {
        crate::path::lemma_trim_unchanged(q);
    } else {
        let r = seq!['/'];
        crate::path::lemma_trim_unchanged(r);
        crate::path::lemma_components_slash(Seq::empty());
        assert(Seq::<char>::empty() + seq!['/'] =~= r);
    }
    // The trimmed path.
    assert(crate::path::trim_start(p) == p);
    crate::path::lemma_trim_end_concat(s0, c);
    assert(crate::path::trim(p) == s0 + n);
    crate::path::lemma_trim_end_prefix(c);
    assert(!n.contains('/')) by {
        if n.contains('/') {
            let k = choose|k: int| 0 <= k < n.len() && n[k] == '/';
            assert(c[k] == n[k]);
            assert(c.contains('/'));
        }
    }
    if n.len() == 0 {
        assert(s0 + n =~= s0);
        assert(crate::path::trim_start(s0) == s0);
        crate::path::lemma_components_slash(q);
    } else {
        let t = s0 + n;
        assert(t == q + seq!['/'] + n);
        assert(t.last() == n.last()) by {
            assert(n[n.len() - 1] == n.last());
        }
        assert(n.last() != '/') by {
            assert(n[n.len() - 1] == n.last());
        }
        assert(t[0] == '/') by {
            assert(t[0] == s0[0]);
        }
        crate::path::lemma_components_append(q, n);
        crate::path::lemma_last_slash_append(q, n);
        assert(crate::path::trim_end_slashes(t) == t);
        assert(t != seq!['/']) by {
            assert(t.len() >= 2);
        }
        assert(t.skip(q.len() + 1 as int) =~= n);
        if i > 0 {
            assert(t.take(q.len() as int) =~= q);
        }
    }
    if !crate::path::is_ws(c.last()) {
        assert(crate::path::trim_end(c) == c);
        assert forall|k: int| 0 < k < p.len() && #[trigger] p[k] == '/' implies !crate::path::is_ws(
            p[k - 1],
        ) && p[k - 1] != '/' by {
            if k > q.len() {
                assert(c[k - q.len() - 1] == p[k]);
                assert(c.contains('/'));
            } else if k == q.len() {
                assert(p[k - 1] == q.last());
            } else {
                assert(p[k] == q[k]);
                assert(p[k - 1] == q[k - 1]);
            }
        }
    }
}

/// Below a path built by `mkdir_p`, a mount path applies to the next path
/// exactly when it applies to the parent or is, without trailing slashes, the
/// next path.
proof fn lemma_mount_matches_step(q: Seq<char>, comps: Seq<Seq<char>>, i: nat, mp: Seq<char>)
    requires
        i < comps.len(),
        built_path(q, comps, i),
        !comps[i as int].contains('/'),
    ensures
        crate::model::mount_matches(q + seq!['/'] + comps[i as int], mp) <==> (
        crate::model::mount_matches(built_parent(q, i), mp) || trim_end_slashes(mp) == q + seq!['/']
            + comps[i as int]),
{
    let c = comps[i as int];
    let p = q + seq!['/'] + c;
    let e = trim_end_slashes(mp);
    crate::path::lemma_trim_end_slashes(mp);
    let k = e.len() as int;
    if e == p {
        assert(p.take(k) =~= p);
    }
    if i > 0 {
        if crate::model::mount_matches(q, mp) {
            assert(p.take(k) =~= q.take(k));
            if k < q.len() {
                assert(p[k] == q[k]);
            }
        }
        if crate::model::mount_matches(p, mp) && e != p {
            assert(k < p.len()) by {
                if k == p.len() {
                    assert(e =~= p);
                }
            }
            assert(p[k] == '/');
            assert(k <= q.len()) by {
                if k > q.len() {
                    assert(c[k - q.len() - 1] == p[k]);
                    assert(c.contains('/'));
                }
            }
            assert(q.take(k) =~= p.take(k));
            if k < q.len() {
                assert(q[k] == p[k]);
            }
        }
    } else {
        let r = seq!['/'];
        assert(p =~= seq!['/'] + c);
        if crate::model::mount_matches(r, mp) {
            if k == 1 {
                assert(e =~= r);
            }
            assert(k == 0);
        }
        if crate::model::mount_matches(p, mp) && e != p {
            assert(k < p.len()) by {
                if k == p.len() {
                    assert(e =~= p);
                }
            }
            assert(p[k] == '/');
            if k > 0 {
                assert(c[k - 1] == p[k]);
                assert(c.contains('/'));
            }
            assert(e =~= Seq::<char>::empty());
        }
        if k == 0 {
            assert(p.take(0) =~= e);
            assert(r.take(0) =~= e);
        }
    }
}

/// Where no mount path is, without trailing slashes, the next path, the next
/// path and its parent have the same mount point.
proof fn lemma_mount_scan_step(
    ms: Seq<crate::mount::MountView>,
    q: Seq<char>,
    comps: Seq<Seq<char>>,
    i: nat,
    n: nat,
    d: InodeId,
)
    requires
        i < comps.len(),
        built_path(q, comps, i),
        !comps[i as int].contains('/'),
        n <= ms.len(),
        forall|j: int| 0 <= j < n ==> trim_end_slashes((#[trigger] ms[j]).path) != q + seq!['/']
            + comps[i as int],
    ensures
        crate::model::mount_scan(ms, q + seq!['/'] + comps[i as int], n, d)
            == crate::model::mount_scan(ms, built_parent(q, i), n, d),
    decreases n,
{
    if n > 0 {
        lemma_mount_scan_step(ms, q, comps, i, (n - 1) as nat, d);
        lemma_mount_matches_step(q, comps, i, ms[n - 1].path);
    }
}

/// Where some mount path agrees with `p` up to trailing slashes, the mount
/// point chosen for `p` is one of those.
proof fn lemma_mount_scan_exact(ms: Seq<crate::mount::MountView>, p: Seq<char>, n: nat, d: InodeId)
    requires
        n <= ms.len(),
    ensures
        crate::model::mount_scan(ms, p, n, d).0 <= trim_end_slashes(p).len() + 1,
        crate::model::mount_scan(ms, p, n, d).0 == trim_end_slashes(p).len() + 1 ==> exists|j: int|
            0 <= j < n && trim_end_slashes((#[trigger] ms[j]).path) == trim_end_slashes(p)
                && crate::model::mount_scan(ms, p, n, d).2 == crate::model::mount_depth(ms[j].path),
        (exists|j: int| 0 <= j < n && trim_end_slashes((#[trigger] ms[j]).path) == trim_end_slashes(p))
            ==> crate::model::mount_scan(ms, p, n, d).0 == trim_end_slashes(p).len() + 1,
    decreases n,
{
    if n > 0 {
        lemma_mount_scan_exact(ms, p, (n - 1) as nat, d);
        let m = ms[n - 1];
        let prev = crate::model::mount_scan(ms, p, (n - 1) as nat, d);
        if crate::model::mount_matches(p, m.path) {
            lemma_mount_match_bound(p, m.path);
        }
        if trim_end_slashes(m.path) == trim_end_slashes(p) {
            crate::path::lemma_trim_end_slashes(p);
            crate::path::lemma_trim_end_slashes(m.path);
            assert(crate::model::mount_matches(p, m.path));
        }
        if prev.0 == trim_end_slashes(p).len() + 1 {
            let j = choose|j: int|
                0 <= j < n - 1 && trim_end_slashes((#[trigger] ms[j]).path) == trim_end_slashes(p)
                    && prev.2 == crate::model::mount_depth(ms[j].path);
            assert(0 <= j < n);
        }
        if exists|j: int| 0 <= j < n && trim_end_slashes((#[trigger] ms[j]).path) == trim_end_slashes(p) {
            let j = choose|j: int|
                0 <= j < n && trim_end_slashes((#[trigger] ms[j]).path) == trim_end_slashes(p);
            if j < n - 1 {
                assert(exists|j: int|
                    0 <= j < n - 1 && trim_end_slashes((#[trigger] ms[j]).path) == trim_end_slashes(p));
            }
        }
        if crate::model::mount_matches(p, m.path) && trim_end_slashes(m.path).len() + 1 > prev.0
            && trim_end_slashes(m.path).len() == trim_end_slashes(p).len() {
            assert(trim_end_slashes(ms[n - 1].path) == trim_end_slashes(p));
        }
    }
}

/// A mount path that is `p` with trailing slashes added takes up all of `p`'s
/// components.
proof fn lemma_mount_depth_at(p: Seq<char>, mp: Seq<char>)
    requires
        trim_end_slashes(mp) == p,
        p.len() > 0,
        p[0] == '/',
        p.last() != '/',
    ensures
        mp == p || crate::model::mount_depth(mp) == crate::path::components(p).len(),
{
    crate::path::lemma_trim_end_slashes(mp);
    if mp != p {
        assert(mp.len() > p.len()) by {
            if mp.len() == p.len() {
                assert(mp =~= p);
            }
        }
        assert(mp[0] == p[0]);
        assert(mp.last() == '/');
        crate::path::lemma_trim_unchanged(mp);
        crate::path::lemma_components_trim_slashes(mp);
    }
}

/// A mount path that applies to a path like those `mkdir_p` builds takes up
/// no more components than that path has.
proof fn lemma_mount_depth_within(q: Seq<char>, mp: Seq<char>)
    requires
        q.len() > 0,
        q[0] == '/',
        !crate::path::is_ws(q.last()),
        q.last() != '/',
        forall|k: int|
            0 < k < q.len() && #[trigger] q[k] == '/' ==> !crate::path::is_ws(q[k - 1]) && q[k - 1]
                != '/',
        crate::model::mount_matches(q, mp),
    ensures
        crate::model::mount_depth(mp) <= crate::path::components(q).len(),
{
    let e = trim_end_slashes(mp);
    crate::path::lemma_trim_end_slashes(mp);
    let k = e.len() as int;
    crate::path::lemma_trim_unchanged(q);
    if k == 0 {
        if mp.len() > 0 {
            assert(mp[0] == '/');
            assert(mp.last() == '/');
            crate::path::lemma_trim_unchanged(mp);
            crate::path::lemma_components_trim_slashes(mp);
            crate::path::lemma_components_empty();
            assert(e =~= Seq::<char>::empty());
        } else {
            crate::path::lemma_trim_start_len(mp);
        }
    } else {
        assert(e[0] == q[0]);
        let ee = e;
        if k == q.len() {
            assert(e =~= q);
        } else {
            assert(q[k] == '/');
            assert(e.last() == q[k - 1]);
            let rest = q.skip(k + 1);
            assert(q =~= e + seq!['/'] + rest);
            crate::path::lemma_components_concat_slash(e, rest);
        }
        crate::path::lemma_trim_unchanged(e);
        lemma_mount_depth_at(e, mp);
    }
}

/// The mount point of a parent `mkdir_p` passes takes up no more than the
/// parent's components.
proof fn lemma_mount_scan_depth(
    ms: Seq<crate::mount::MountView>,
    q: Seq<char>,
    comps: Seq<Seq<char>>,
    i: nat,
    n: nat,
    d: InodeId,
)
    requires
        i < comps.len(),
        built_path(q, comps, i),
        n <= ms.len(),
    ensures
        crate::model::mount_scan(ms, built_parent(q, i), n, d).2 <= i,
    decreases n,
{
    if n > 0 {
        lemma_mount_scan_depth(ms, q, comps, i, (n - 1) as nat, d);
        let mp = ms[n - 1].path;
        if crate::model::mount_matches(built_parent(q, i), mp) {
            if i > 0 {
                lemma_mount_depth_within(q, mp);
                assert(comps.take(i as int).len() == i);
            } else {
                let r = seq!['/'];
                let e = trim_end_slashes(mp);
                crate::path::lemma_trim_end_slashes(mp);
                if e.len() == 1 {
                    assert(e =~= r);
                }
                if mp.len() > 0 {
                    assert(mp[0] == '/');
                    assert(mp.last() == '/');
                    crate::path::lemma_trim_unchanged(mp);
                    crate::path::lemma_components_trim_slashes(mp);
                    crate::path::lemma_components_empty();
                    assert(e =~= Seq::<char>::empty());
                } else {
                    crate::path::lemma_trim_start_len(mp);
                }
            }
        }
    }
}

/// `mkdir_p` from step `i` on, run again on the filesystem it left, takes the
/// same path through the directories it found or made, makes nothing and
/// gives the same directory.
proof fn lemma_mkdir_p_steps_again(
    v: FsView,
    comps: Seq<Seq<char>>,
    i: nat,
    q: Seq<char>,
    last: InodeId,
    last2: InodeId,
)
    requires
        view_wf(v),
        i <= comps.len(),
        i < comps.len() ==> built_path(q, comps, i),
        forall|k: int| 0 <= k < comps.len() ==> (#[trigger] comps[k]).len() > 0 && !comps[k].contains(
            '/',
        ),
        forall|k: int| 0 <= k < comps.len() - 1 ==> !crate::path::is_ws((#[trigger] comps[k]).last()),
        i > 0 ==> resolve_follow(v, q) == Ok::<InodeId, FsError>(last) && v.inodes.contains_key(last)
            && v.inodes[last].kind is Directory,
        i == comps.len() ==> last2 == last,
        crate::model::mkdir_p_steps(v, comps, i, q, last) is Some,
        crate::model::mkdir_p_steps(v, comps, i, q, last)->Some_0.0 is Ok,
    ensures
        ({
            let (r, v1) = crate::model::mkdir_p_steps(v, comps, i, q, last)->Some_0;
            &&& view_wf(v1)
            &&& v1.mounts == v.mounts
            &&& namespace_extends(v, v1)
            &&& crate::model::mkdir_p_steps(v1, comps, i, q, last2) == Some((r, v1))
        }),
    decreases comps.len() - i,
{
    let (r, v1) = crate::model::mkdir_p_steps(v, comps, i, q, last)->Some_0;
    if i >= comps.len() {
        assert(namespace_extends(v, v)) by {
            assert forall|id: InodeId| #[trigger] v.inodes.contains_key(id) implies v.inodes.contains_key(id)
                && kind_extends(v.inodes[id].kind, v.inodes[id].kind) by {
                match v.inodes[id].kind {
                    KindView::File(_) => {},
                    _ => {},
                }
            }
        }
    } else {
        let c = comps[i as int];
        let p = q + seq!['/'] + c;
        let nm = crate::path::trim_end(c);
        lemma_built_path_step(q, comps, i);
        let parent = built_parent(q, i);
        assert(i + 1 < comps.len() ==> !crate::path::is_ws(c.last()));
        match resolve_follow(v, p) {
            Ok(x) => {
                lemma_mkdir_p_steps_again(v, comps, i + 1, p, x, x);
                lemma_resolve_extends(v, v1, p, true, 0);
                assert(kind_extends(v.inodes[x].kind, v1.inodes[x].kind));
            },
            Err(e) => {
                assert(e == FsError::NotFound);
                let n = v.mounts.len();
                let sp = split_path_spec(p)->Ok_0;
                // No mount point sits at `p`: there `p` would lead to its root.
                lemma_mount_scan_exact(v.mounts, p, n, v.root);
                assert(trim_end_slashes(p) == p) by {
                    crate::path::lemma_trim_end_slashes(p);
                    assert(p.take(p.len() as int) =~= p);
                }
                assert(!exists|j: int| 0 <= j < n && trim_end_slashes((#[trigger] v.mounts[j]).path)
                    == p) by {
                    if exists|j: int| 0 <= j < n && trim_end_slashes((#[trigger] v.mounts[j]).path)
                        == p {
                        let j = choose|j: int|
                            0 <= j < n && trim_end_slashes((#[trigger] v.mounts[j]).path) == p
                                && crate::model::mount_skip_spec(v, p) == crate::model::mount_depth(
                                v.mounts[j].path,
                            );
                        lemma_mount_depth_at(p, v.mounts[j].path);
                        assert(crate::model::mount_skip_spec(v, p) >= sp.len());
                    }
                }
                // So `p` and its parent have the same mount point, which takes
                // up no more than the parent's components.
                lemma_mount_scan_step(v.mounts, q, comps, i, n, v.root);
                lemma_mount_scan_depth(v.mounts, q, comps, i, n, v.root);
                let mr = mount_root_spec(v, p);
                let sk = crate::model::mount_skip_spec(v, p);
                assert(mount_root_spec(v, parent) == mr);
                assert(crate::model::mount_skip_spec(v, parent) == sk);
                assert(sk <= i);
                // A component that is all whitespace leaves the path where
                // its parent is, which resolved.
                assert(nm.len() > 0) by {
                    if nm.len() == 0 {
                        assert(resolve_follow(v, p) == resolve_follow(v, parent));
                        assert(comps.take(i as int).len() == i);
                    }
                }
                // With `.` or `..` the step would only stay where it was.
                assert(!crate::model::is_dot_name(nm)) by {
                    if crate::model::is_dot_name(nm) {
                        assert(seq![nm][0] == nm);
                        assert(comps.take(i as int).len() == i);
                        if i > 0 {
                            if sk < i {
                                lemma_walk_push(v, comps.take(i as int), sk, mr, 0, nm, true);
                            } else {
                                lemma_walk_last(v, comps.take(i as int).push(nm), sk, mr, true, 0);
                            }
                        } else {
                            // "/." and "/.." look up `.` or `..` in the root of
                            // `/`, which `mkdir` needs to be a directory.
                            assert(comps.take(0).push(nm) =~= seq![nm]);
                            assert(resolve_follow(v, parent) == Ok::<InodeId, FsError>(mr));
                        }
                    }
                }
                let (r2, v2) = mkdir_spec(v, p, crate::model::perms_all());
                let y = r2->Ok_0;
                lemma_mkdir_keeps_wf(v, p, crate::model::perms_all());
                lemma_create_then_resolve(v, p, crate::model::perms_all());
                assert(v2.inodes.contains_key(y));
                assert(v2.inodes[y] == new_dir_view(y, crate::model::perms_all()));
                lemma_mkdir_p_steps_again(v2, comps, i + 1, p, y, y);
                lemma_extends_trans(v, v2, v1);
                lemma_resolve_extends(v2, v1, p, true, 0);
                assert(kind_extends(v2.inodes[y].kind, v1.inodes[y].kind));
            },
        }
    }
}

/// A second `mkdir_p` of the same path changes nothing: run again on the
/// filesystem the first call left, it gives the same directory and makes
/// nothing. Stated for paths none of whose components but the last ends in
/// whitespace.
pub proof fn lemma_mkdir_p_twice(v: FsView, path: Seq<char>)
    requires
        view_wf(v),
        split_path_spec(path) is Ok,
        forall|k: int|
            0 <= k < split_path_spec(path)->Ok_0.len() - 1 ==> !crate::path::is_ws(
                (#[trigger] split_path_spec(path)->Ok_0[k]).last(),
            ),
    ensures
        crate::model::mkdir_p_spec(v, path) is Some && crate::model::mkdir_p_spec(v, path)->Some_0.0 is Ok
            ==> crate::model::mkdir_p_spec(crate::model::mkdir_p_spec(v, path)->Some_0.1, path)
            == crate::model::mkdir_p_spec(v, path),
{
    let comps = split_path_spec(path)->Ok_0;
    if crate::model::mkdir_p_spec(v, path) is Some && crate::model::mkdir_p_spec(v, path)->Some_0.0 is Ok {
        crate::path::lemma_components_plain(crate::path::trim(path));
        lemma_mkdir_p_steps_again(v, comps, 0, Seq::empty(), v.root, v.root);
    }
}

/// What `open` opens is a file, and where its descriptor stands: at the start
/// of the file for every mode but `Append`, at the end of the file's contents
/// for `Append`. A descriptor that may read reads the file from its start.
pub proof fn lemma_open_position(v: FsView, path: Seq<char>, mode: OpenMode, n: nat)
    requires
        view_wf(v),
        open_spec(v, path, mode).0 is Ok,
    ensures
        ({
            let fd = open_spec(v, path, mode).0->Ok_0;
            let v1 = open_spec(v, path, mode).1;
            let node = stat_spec(v, path)->Ok_0;
            let data = node.kind->File_0;
            &&& node.kind is File
            &&& mode != OpenMode::Append ==> tell_spec(v1, fd) == Ok::<u64, FsError>(0)
            &&& mode == OpenMode::Append ==> tell_spec(v1, fd) == Ok::<u64, FsError>(
                data.len() as u64,
            )
            &&& (mode == OpenMode::Read || mode == OpenMode::ReadWrite) ==> read_spec(v1, fd, n).0
                == Ok::<Seq<u8>, FsError>(data.take(crate::model::min_int(data.len() as int, n as int)))
        }),
{
    let fd = open_spec(v, path, mode).0->Ok_0;
    let v1 = open_spec(v, path, mode).1;
    let id = resolve_follow(v, path)->Ok_0;
    let node = stat_spec(v, path)->Ok_0;
    lemma_resolve_not_symlink(v, path, 0);
    assert(node == v.inodes[id]);
    assert(node.kind is File);
    let data = node.kind->File_0;
    if mode == OpenMode::Read || mode == OpenMode::ReadWrite {
        assert(fd_file(v1, fd, false) == Ok::<Seq<u8>, FsError>(data));
        if data.len() > 0 {
            assert(data.subrange(0, crate::model::min_int(data.len() as int, n as int)) =~= data.take(
                crate::model::min_int(data.len() as int, n as int),
            ));
        } else {
            assert(data.take(0) =~= Seq::<u8>::empty());
        }
    }
}

/// Writing right after `open`: a `Write` or `ReadWrite` descriptor overwrites
/// the file from its start, keeping what lies past the bytes written; an
/// `Append` descriptor adds the bytes after the file's contents.
pub proof fn lemma_open_then_write(v: FsView, path: Seq<char>, mode: OpenMode, buf: Seq<u8>)
    requires
        view_wf(v),
        open_spec(v, path, mode).0 is Ok,
        mode != OpenMode::Read,
    ensures
        ({
            let fd = open_spec(v, path, mode).0->Ok_0;
            let v1 = open_spec(v, path, mode).1;
            let id = resolve_follow(v, path)->Ok_0;
            let data = stat_spec(v, path)->Ok_0.kind->File_0;
            let v2 = write_spec(v1, fd, buf).1;
            &&& write_spec(v1, fd, buf).0 == Ok::<usize, FsError>(buf.len() as usize)
            &&& mode == OpenMode::Append ==> v2.inodes[id].kind == KindView::File(data + buf)
            &&& mode != OpenMode::Append ==> v2.inodes[id].kind == KindView::File(
                if buf.len() < data.len() {
                    buf + data.skip(buf.len() as int)
                } else {
                    buf
                },
            )
        }),
{
    let fd = open_spec(v, path, mode).0->Ok_0;
    let v1 = open_spec(v, path, mode).1;
    let id = resolve_follow(v, path)->Ok_0;
    let node = stat_spec(v, path)->Ok_0;
    lemma_resolve_not_symlink(v, path, 0);
    assert(node == v.inodes[id]);
    let data = node.kind->File_0;
    assert(fd_file(v1, fd, true) == Ok::<Seq<u8>, FsError>(data));
    let v2 = write_spec(v1, fd, buf).1;
    if mode == OpenMode::Append {
        assert(v.inodes[id].size == data.len());
        assert(write_at(data, data.len() as int, buf) =~= data + buf);
    } else if buf.len() < data.len() {
        assert(write_at(data, 0, buf) =~= buf + data.skip(buf.len() as int));
    } else {
        assert(write_at(data, 0, buf) =~= buf);
    }
}

/// A write through a descriptor leaves the file as long as the larger of its
/// old length and the end of the bytes written, and its size is that length.
/// Nothing else changes but the descriptor's offset, which moves past the bytes.
pub proof fn lemma_write_size(v: FsView, fd: u32, buf: Seq<u8>)
    requires
        view_wf(v),
        crate::model::write_fits(v, fd, buf.len()),
        write_spec(v, fd, buf).0 is Ok,
    ensures
        ({
            let id = v.fds[fd].inode_id;
            let data = fd_file(v, fd, true)->Ok_0;
            let off = v.fds[fd].offset as int;
            let v1 = write_spec(v, fd, buf).1;
            let len = if off + buf.len() > data.len() {
                off + buf.len()
            } else {
                data.len() as int
            };
            &&& v1.inodes[id].kind is File
            &&& v1.inodes[id].kind->File_0.len() == len
            &&& v1.inodes[id].size == len
            &&& v1.inodes[id].kind->File_0.subrange(off, off + buf.len()) == buf
            &&& forall|i: int| 0 <= i < data.len() && !(off <= i < off + buf.len())
                ==> #[trigger] v1.inodes[id].kind->File_0[i] == data[i]
            &&& v1.fds[fd].offset == off + buf.len()
            &&& forall|j: InodeId| j != id ==> #[trigger] v1.inodes[j] == v.inodes[j]
        }),
{
    let id = v.fds[fd].inode_id;
    let data = fd_file(v, fd, true)->Ok_0;
    let off = v.fds[fd].offset as int;
    let nd = write_at(data, off, buf);
    assert(v.inodes[id].size == data.len());
    assert(nd.subrange(off, off + buf.len()) =~= buf);
}

/// `read_link` gives exactly the target stored in the symlink that `lstat`
/// finds, and fails with `NotASymlink` on anything else.
pub proof fn lemma_read_link_is_stored_target(v: FsView, path: Seq<char>)
    ensures
        match lstat_spec(v, path) {
            Err(e) => crate::model::read_link_spec(v, path) == Err::<Seq<char>, FsError>(e),
            Ok(node) => match node.kind {
                KindView::Symlink(t) => crate::model::read_link_spec(v, path) == Ok::<
                    Seq<char>,
                    FsError,
                >(t),
                _ => crate::model::read_link_spec(v, path) == Err::<Seq<char>, FsError>(
                    FsError::NotASymlink,
                ),
            },
        },
{
}

/// After a successful `create_symlink`, at a path made of its parent's
/// components and one more ordinary name, where the same mount point (or
/// none) applies to the path and its parent and takes up no more than the
/// parent's components, `lstat` finds the new symlink and `read_link` gives
/// the target it was made with.
pub proof fn lemma_create_symlink_then_read_link(v: FsView, link: Seq<char>, target: Seq<char>)
    requires
        view_wf(v),
        parent_and_name_spec(link) is Ok,
        !crate::model::is_dot_name(parent_and_name_spec(link)->Ok_0.1),
        split_path_spec(parent_and_name_spec(link)->Ok_0.0) is Ok,
        split_path_spec(link) == Ok::<Seq<Seq<char>>, FsError>(
            split_path_spec(parent_and_name_spec(link)->Ok_0.0)->Ok_0.push(
                parent_and_name_spec(link)->Ok_0.1,
            ),
        ),
        mount_root_spec(v, link) == mount_root_spec(v, parent_and_name_spec(link)->Ok_0.0),
        crate::model::mount_skip_spec(v, link) == crate::model::mount_skip_spec(
            v,
            parent_and_name_spec(link)->Ok_0.0,
        ),
        crate::model::mount_skip_spec(v, link) <= split_path_spec(
            parent_and_name_spec(link)->Ok_0.0,
        )->Ok_0.len(),
    ensures
        create_symlink_spec(v, link, target).0 is Ok ==> {
            let v1 = create_symlink_spec(v, link, target).1;
            &&& resolve_no_follow(v1, link) == create_symlink_spec(v, link, target).0
            &&& crate::model::read_link_spec(v1, link) == Ok::<Seq<char>, FsError>(target)
        },
{
    if validate_create_spec(v, link) is Ok {
        let (pp, name) = parent_and_name_spec(link)->Ok_0;
        let id = v.next_inode;
        let pcomps = split_path_spec(pp)->Ok_0;
        lemma_creation_extends_namespace(v, link, target, Permissions { read: true, write: true, execute: true });
        let v3 = create_symlink_spec(v, link, target).1;
        lemma_resolve_extends(v, v3, pp, true, 0);
        assert(roots_not_symlinks(v3)) by {
            assert forall|j: int|
                0 <= j < v3.mounts.len() implies !(v3.inodes.contains_key(#[trigger] v3.mounts[j].root)
                && v3.inodes[v3.mounts[j].root].kind is Symlink) by {
                let r = v.mounts[j].root;
                if v.inodes.contains_key(r) {
                    assert(kind_extends(v.inodes[r].kind, v3.inodes[r].kind));
                }
            }
            if v.inodes.contains_key(v.root) {
                assert(kind_extends(v.inodes[v.root].kind, v3.inodes[v.root].kind));
            }
        }
        let mr = mount_root_spec(v, link);
        let sk = crate::model::mount_skip_spec(v, link);
        assert(mount_root_spec(v3, link) == mr);
        assert(mount_root_spec(v3, pp) == mr);
        assert(crate::model::mount_skip_spec(v3, link) == sk);
        assert(crate::model::mount_skip_spec(v3, pp) == sk);
        assert(seq![name][0] == name);
        if pcomps.len() > sk {
            lemma_walk_push(v3, pcomps, sk, mr, 0, name, false);
        } else {
            lemma_walk_last(v3, pcomps.push(name), sk, mr, false, 0);
        }
        assert(v3.inodes[id].kind == KindView::Symlink(target));
    }
}

/// `mount` succeeds on any path that leads to an empty directory, whatever is
/// mounted already: the mount table keeps its entries and gains one for the
/// path, whose root is a new, empty directory.
pub proof fn lemma_mount_succeeds(v: FsView, mount_path: Seq<char>, label: Seq<char>)
    requires
        stat_spec(v, mount_path) is Ok,
        stat_spec(v, mount_path)->Ok_0.kind is Directory,
        stat_spec(v, mount_path)->Ok_0.kind->Directory_0.dom().is_empty(),
    ensures
        ({
            let (r, v1) = mount_spec(v, mount_path, label);
            &&& r == Ok::<(), FsError>(())
            &&& v1.mounts == v.mounts.push(
                crate::mount::MountView { path: mount_path, root: v.next_inode, label },
            )
            &&& v1.inodes == v.inodes.insert(v.next_inode, new_dir_view(v.next_inode, crate::model::perms_all()))
        }),
{
    let ch = stat_spec(v, mount_path)->Ok_0.kind->Directory_0;
    assert(ch.is_empty()) by {
        assert(ch.dom() =~= Set::<Seq<char>>::empty());
    }
}

/// A successful `rename` changes the two parent directories and nothing else:
/// the new parent keeps all its entries (without the old name, when it is
/// also the old parent) and gains the new name for the moved inode; the old
/// parent, when it is another directory, loses the old name only.
pub proof fn lemma_rename_entries(v: FsView, old_path: Seq<char>, new_path: Seq<char>)
    requires
        crate::model::rename_spec(v, old_path, new_path).0 is Ok,
    ensures
        ({
            let (op, on) = parent_and_name_spec(old_path)->Ok_0;
            let (np, nn) = parent_and_name_spec(new_path)->Ok_0;
            let opid = resolve_follow(v, op)->Ok_0;
            let npid = resolve_follow(v, np)->Ok_0;
            let och = v.inodes[opid].kind->Directory_0;
            let nch = v.inodes[npid].kind->Directory_0;
            let child = och[on];
            let v1 = crate::model::rename_spec(v, old_path, new_path).1;
            &&& och.contains_key(on)
            &&& !nch.contains_key(nn)
            &&& v1.inodes[npid] == InodeView {
                kind: KindView::Directory(
                    if opid == npid {
                        och.remove(on)
                    } else {
                        nch
                    }.insert(nn, child),
                ),
                ..v.inodes[npid]
            }
            &&& opid != npid ==> v1.inodes[opid] == InodeView {
                kind: KindView::Directory(och.remove(on)),
                ..v.inodes[opid]
            }
            &&& v1.inodes.dom() == v.inodes.dom()
            &&& forall|j: InodeId| j != opid && j != npid ==> #[trigger] v1.inodes[j] == v.inodes[j]
            &&& v1.mounts == v.mounts
            &&& v1.fds == v.fds
        }),
{
    let v1 = crate::model::rename_spec(v, old_path, new_path).1;
    assert(v1.inodes.dom() =~= v.inodes.dom());
}

/// A read through a descriptor gives the file's bytes from the descriptor's
/// offset on, up to `n` of them or to the end of the file, and moves the
/// offset past them; nothing else changes.
pub proof fn lemma_read_range(v: FsView, fd: u32, n: nat)
    requires
        view_wf(v),
        read_spec(v, fd, n).0 is Ok,
    ensures
        ({
            let data = fd_file(v, fd, false)->Ok_0;
            let off = v.fds[fd].offset as int;
            let out = read_spec(v, fd, n).0->Ok_0;
            let v1 = read_spec(v, fd, n).1;
            &&& off <= data.len() ==> out == data.subrange(
                off,
                crate::model::min_int(data.len() as int, off + n),
            )
            &&& off > data.len() ==> out.len() == 0
            &&& v1.fds[fd].offset == crate::model::min_int(data.len() as int, off + n)
            &&& v1.inodes == v.inodes
            &&& forall|g: u32| g != fd ==> #[trigger] v1.fds.contains_key(g) == v.fds.contains_key(g)
                && (v.fds.contains_key(g) ==> v1.fds[g] == v.fds[g])
        }),
{
    let data = fd_file(v, fd, false)->Ok_0;
    let off = v.fds[fd].offset as int;
    if off == data.len() {
        assert(data.subrange(off, off) =~= Seq::<u8>::empty());
    }
    assert(v.inodes[v.fds[fd].inode_id].size == data.len());
}

} // verus!
