//! Edge cases, error variants and the library's laws on concrete values.

use alice_filesystem::buf_io::{BufReader, BufWriter};
use alice_filesystem::errors::FsError;
use alice_filesystem::fd::OpenMode;
use alice_filesystem::path::is_whitespace_char;
use alice_filesystem::permissions::Permissions;
use alice_filesystem::virtual_fs::VirtualFs;

fn fs_with_file(path: &str, data: &[u8]) -> VirtualFs {
    let mut fs = VirtualFs::new();
    fs.create_file(path).unwrap();
    fs.write_file(path, data).unwrap();
    fs
}

// ---- path syntax ---------------------------------------------------------

#[test]
fn whitespace_matches_std() {
    for c in (0u32..=0x10FFFF).filter_map(char::from_u32) {
        assert_eq!(is_whitespace_char(c), c.is_whitespace(), "{:?}", c);
    }
}

#[test]
fn surrounding_whitespace_is_trimmed() {
    let mut fs = VirtualFs::new();
    let id = fs.mkdir("/a").unwrap();
    assert_eq!(fs.resolve_path("  /a \t"), Ok(id));
    assert_eq!(fs.resolve_path("\u{3000}/a\u{2029}"), Ok(id));
}

#[test]
fn empty_and_relative_paths_are_invalid() {
    let fs = VirtualFs::new();
    assert_eq!(fs.resolve_path(""), Err(FsError::InvalidPath));
    assert_eq!(fs.resolve_path("   "), Err(FsError::InvalidPath));
    assert_eq!(fs.resolve_path("a/b"), Err(FsError::InvalidPath));
}

#[test]
fn parent_and_name_edge_cases() {
    assert_eq!(
        VirtualFs::parent_and_name("/a/b///"),
        Ok(("/a".to_string(), "b".to_string()))
    );
    assert_eq!(
        VirtualFs::parent_and_name("//a"),
        Ok(("/".to_string(), "a".to_string()))
    );
    assert_eq!(
        VirtualFs::parent_and_name(" /x/é "),
        Ok(("/x".to_string(), "é".to_string()))
    );
    assert_eq!(VirtualFs::parent_and_name("a"), Err(FsError::InvalidPath));
    assert_eq!(VirtualFs::parent_and_name("///"), Err(FsError::InvalidPath));
    assert_eq!(VirtualFs::parent_and_name(""), Err(FsError::InvalidPath));
}

#[test]
fn file_in_the_middle_of_a_path() {
    let mut fs = VirtualFs::new();
    let f = fs.create_file("/f").unwrap();
    // a file has no entries: any component after it is an error
    assert_eq!(fs.resolve_path("/f"), Ok(f));
    assert_eq!(fs.resolve_path("/f/x"), Err(FsError::NotADirectory));
    assert!(!fs.path_exists("/f/x"));
    assert_eq!(fs.resolve_path("/f/."), Err(FsError::NotADirectory));
    assert_eq!(fs.resolve_path("/f/x/y"), Err(FsError::NotADirectory));
    assert_eq!(fs.resolve_path_no_follow("/f/x"), Err(FsError::NotADirectory));
}

#[test]
fn dotdot_stays_in_place() {
    let mut fs = VirtualFs::new();
    let a = fs.mkdir("/a").unwrap();
    let b = fs.mkdir("/a/b").unwrap();
    assert_eq!(fs.resolve_path("/a/b/.."), Ok(b));
    assert_eq!(fs.resolve_path("/a/./."), Ok(a));
}

// ---- directories -----------------------------------------------------------

#[test]
fn list_dir_orders_by_code_point() {
    let mut fs = VirtualFs::new();
    fs.create_file("/é").unwrap();
    fs.create_file("/a").unwrap();
    fs.create_file("/B").unwrap();
    fs.create_file("/ab").unwrap();
    assert_eq!(fs.list_dir("/").unwrap(), vec!["B", "a", "ab", "é"]);
}

#[test]
fn mkdir_adds_entry_and_link() {
    let mut fs = VirtualFs::new();
    assert_eq!(fs.stat("/").unwrap().link_count, 2);
    let id = fs.mkdir("/d").unwrap();
    assert_eq!(fs.stat("/").unwrap().link_count, 3);
    assert_eq!(fs.list_dir("/").unwrap(), vec!["d"]);
    let d = fs.get_inode(id).unwrap();
    assert!(d.is_dir());
    assert_eq!(d.link_count, 2);
    assert_eq!(d.id, id);
    fs.rmdir("/d").unwrap();
    assert_eq!(fs.stat("/").unwrap().link_count, 2);
}

#[test]
fn created_ids_are_fresh() {
    let mut fs = VirtualFs::new();
    let a = fs.mkdir("/a").unwrap();
    fs.rmdir("/a").unwrap();
    let b = fs.mkdir("/a").unwrap();
    assert_ne!(a, b);
    assert!(fs.get_inode(a).is_none());
}

#[test]
fn rmdir_root_and_missing() {
    let mut fs = VirtualFs::new();
    assert_eq!(fs.rmdir("/"), Err(FsError::InvalidPath));
    assert_eq!(fs.rmdir("/nope"), Err(FsError::NotFound));
}

#[test]
fn create_under_a_file() {
    let mut fs = VirtualFs::new();
    fs.create_file("/f").unwrap();
    // "/f" resolves to the file, which is writable but not a directory
    assert_eq!(fs.create_file("/f/g"), Err(FsError::NotADirectory));
}

#[test]
fn failed_mkdir_changes_nothing() {
    let mut fs = VirtualFs::new();
    fs.mkdir("/d").unwrap();
    let before = fs.inode_count();
    assert_eq!(fs.mkdir("/d"), Err(FsError::AlreadyExists));
    assert_eq!(fs.inode_count(), before);
    assert_eq!(fs.list_dir("/").unwrap(), vec!["d"]);
    assert_eq!(fs.stat("/").unwrap().link_count, 3);
}

#[test]
fn mkdir_p_stops_at_a_file() {
    let mut fs = VirtualFs::new();
    fs.mkdir("/a").unwrap();
    fs.create_file("/a/f").unwrap();
    assert_eq!(fs.mkdir_p("/a/f/g"), Err(FsError::NotADirectory));
    assert_eq!(fs.mkdir_p("relative"), Err(FsError::InvalidPath));
    let root = fs.root_inode();
    assert_eq!(fs.mkdir_p("/"), Ok(root));
}

#[test]
fn mkdir_p_returns_last_directory() {
    let mut fs = VirtualFs::new();
    let id = fs.mkdir_p("/x/y/z").unwrap();
    assert_eq!(fs.resolve_path("/x/y/z"), Ok(id));
    assert_eq!(fs.mkdir_p("/x/y/z"), Ok(id));
    assert_eq!(fs.inode_count(), 4);
}

// ---- rename and links ------------------------------------------------------

#[test]
fn rename_errors() {
    let mut fs = VirtualFs::new();
    fs.create_file("/f").unwrap();
    assert_eq!(fs.rename("/nope", "/g"), Err(FsError::NotFound));
    assert_eq!(fs.rename("/f", "/f"), Err(FsError::AlreadyExists));
    assert_eq!(fs.rename("/f", "/missing/g"), Err(FsError::NotFound));
    assert_eq!(fs.rename("/", "/g"), Err(FsError::InvalidPath));
}

#[test]
fn rename_within_directory_keeps_inode() {
    let mut fs = VirtualFs::new();
    let id = fs.create_file("/a").unwrap();
    fs.rename("/a", "/b").unwrap();
    assert_eq!(fs.resolve_path("/b"), Ok(id));
    assert_eq!(fs.list_dir("/").unwrap(), vec!["b"]);
}

#[test]
fn hard_link_shares_inode() {
    let mut fs = VirtualFs::new();
    let id = fs.create_file("/a").unwrap();
    fs.hard_link("/a", "/b").unwrap();
    assert_eq!(fs.resolve_path("/b"), Ok(id));
    assert_eq!(fs.get_inode(id).unwrap().link_count, 2);
    assert_eq!(fs.hard_link("/a", "/b"), Err(FsError::AlreadyExists));
    assert_eq!(fs.hard_link("/nope", "/c"), Err(FsError::NotFound));
}

#[test]
fn unlink_last_link_removes_inode() {
    let mut fs = VirtualFs::new();
    let id = fs.create_file("/a").unwrap();
    fs.hard_link("/a", "/b").unwrap();
    assert_eq!(fs.inode_count(), 2);
    fs.unlink("/a").unwrap();
    assert_eq!(fs.inode_count(), 2);
    assert_eq!(fs.get_inode(id).unwrap().link_count, 1);
    fs.unlink("/b").unwrap();
    assert_eq!(fs.inode_count(), 1);
    assert!(fs.get_inode(id).is_none());
}

// ---- symlinks --------------------------------------------------------------

#[test]
fn stat_follows_where_lstat_stops() {
    let mut fs = VirtualFs::new();
    let target = fs.create_file("/t").unwrap();
    let link = fs.create_symlink("/l", "/t").unwrap();
    assert_eq!(fs.resolve_path_no_follow("/l"), Ok(link));
    assert_eq!(fs.resolve_path("/l"), Ok(target));
    assert_eq!(fs.lstat("/l").unwrap().id, link);
    assert_eq!(fs.stat("/l").unwrap().id, target);
}

#[test]
fn symlink_in_the_middle_is_followed() {
    let mut fs = VirtualFs::new();
    fs.mkdir("/real").unwrap();
    let f = fs.create_file("/real/f").unwrap();
    fs.create_symlink("/l", "/real").unwrap();
    assert_eq!(fs.resolve_path_no_follow("/l/f"), Ok(f));
}

#[test]
fn self_symlink_loops() {
    let mut fs = VirtualFs::new();
    fs.create_symlink("/s", "/s").unwrap();
    assert_eq!(fs.resolve_path("/s"), Err(FsError::SymlinkLoop));
    assert_eq!(fs.read_file("/s"), Err(FsError::SymlinkLoop));
    assert!(fs.resolve_path_no_follow("/s").is_ok());
    assert_eq!(fs.read_link("/s").unwrap(), "/s");
}

#[test]
fn symlink_size_counts_bytes() {
    let mut fs = VirtualFs::new();
    fs.create_symlink("/l", "/é").unwrap();
    assert_eq!(fs.lstat("/l").unwrap().size, 3);
    assert_eq!(fs.read_link("/"), Err(FsError::NotASymlink));
}

#[test]
fn relative_symlink_target_is_invalid() {
    let mut fs = VirtualFs::new();
    fs.create_symlink("/l", "target").unwrap();
    assert_eq!(fs.resolve_path("/l"), Err(FsError::InvalidPath));
}

// ---- whole-file contents ---------------------------------------------------

#[test]
fn write_file_then_read_file_law() {
    let mut fs = fs_with_file("/f", b"old");
    fs.write_file("/f", b"new contents").unwrap();
    assert_eq!(fs.read_file("/f").unwrap(), b"new contents");
    assert_eq!(fs.stat("/f").unwrap().size, 12);
}

#[test]
fn chmod_then_stat_law() {
    let mut fs = VirtualFs::new();
    fs.mkdir("/d").unwrap();
    fs.chmod("/d", Permissions::from_octal(1)).unwrap();
    assert_eq!(fs.stat("/d").unwrap().permissions, Permissions::new(false, false, true));
    assert_eq!(fs.list_dir("/d"), Err(FsError::PermissionDenied));
}

#[test]
fn truncate_then_read_file_law() {
    let mut fs = fs_with_file("/f", b"abc");
    fs.truncate("/f", 1).unwrap();
    assert_eq!(fs.read_file("/f").unwrap(), b"a");
    fs.truncate("/f", 4).unwrap();
    assert_eq!(fs.read_file("/f").unwrap(), vec![b'a', 0, 0, 0]);
    assert_eq!(fs.stat("/f").unwrap().size, 4);
}

#[test]
fn read_file_errors() {
    let fs = VirtualFs::new();
    assert_eq!(fs.read_file("/nope"), Err(FsError::NotFound));
    assert_eq!(fs.read_file("bad"), Err(FsError::InvalidPath));
}

// ---- file descriptors ------------------------------------------------------

#[test]
fn fd_write_then_read_law() {
    let mut fs = fs_with_file("/f", b"0123456789");
    let fd = fs.open("/f", OpenMode::ReadWrite).unwrap();
    fs.seek(fd, 4).unwrap();
    fs.write(fd, b"xyz").unwrap();
    assert_eq!(fs.tell(fd), Ok(7));
    fs.seek(fd, 4).unwrap();
    assert_eq!(fs.read(fd, 3).unwrap(), b"xyz");
    assert_eq!(fs.read_file("/f").unwrap(), b"0123xyz789");
}

#[test]
fn writes_compose_law() {
    let mut one = fs_with_file("/f", b"");
    let mut two = fs_with_file("/f", b"");
    let fd1 = one.open("/f", OpenMode::Write).unwrap();
    let fd2 = two.open("/f", OpenMode::Write).unwrap();
    one.write(fd1, b"abcdef").unwrap();
    two.write(fd2, b"ab").unwrap();
    two.write(fd2, b"cdef").unwrap();
    assert_eq!(one.read_file("/f").unwrap(), two.read_file("/f").unwrap());
    assert_eq!(one.tell(fd1), two.tell(fd2));
}

#[test]
fn write_past_end_fills_with_zeros() {
    let mut fs = fs_with_file("/f", b"ab");
    let fd = fs.open("/f", OpenMode::Write).unwrap();
    fs.seek(fd, 4).unwrap();
    assert_eq!(fs.write(fd, b"z"), Ok(1));
    assert_eq!(fs.read_file("/f").unwrap(), vec![b'a', b'b', 0, 0, b'z']);
    assert_eq!(fs.stat("/f").unwrap().size, 5);
}

#[test]
fn read_past_end_moves_offset_back() {
    let mut fs = fs_with_file("/f", b"abc");
    let fd = fs.open("/f", OpenMode::Read).unwrap();
    fs.seek(fd, 10).unwrap();
    assert!(fs.read(fd, 2).unwrap().is_empty());
    assert_eq!(fs.tell(fd), Ok(3));
}

#[test]
fn append_starts_at_size() {
    let mut fs = fs_with_file("/f", b"abc");
    let fd = fs.open("/f", OpenMode::Append).unwrap();
    assert_eq!(fs.tell(fd), Ok(3));
    assert_eq!(fs.write(fd, b""), Ok(0));
    assert_eq!(fs.read_file("/f").unwrap(), b"abc");
}

#[test]
fn seek_then_tell_law() {
    let mut fs = fs_with_file("/f", b"");
    let fd = fs.open("/f", OpenMode::Read).unwrap();
    fs.seek(fd, 12345).unwrap();
    assert_eq!(fs.tell(fd), Ok(12345));
}

#[test]
fn open_then_close_law() {
    let mut fs = fs_with_file("/f", b"");
    let a = fs.open("/f", OpenMode::Read).unwrap();
    let b = fs.open("/f", OpenMode::Read).unwrap();
    assert_ne!(a, b);
    fs.close(a).unwrap();
    assert_eq!(fs.close(a), Err(FsError::InvalidFileDescriptor));
    assert_eq!(fs.tell(b), Ok(0));
    let c = fs.open("/f", OpenMode::Read).unwrap();
    assert_ne!(c, a);
}

#[test]
fn descriptor_to_removed_file() {
    let mut fs = fs_with_file("/f", b"abc");
    let fd = fs.open("/f", OpenMode::ReadWrite).unwrap();
    fs.unlink("/f").unwrap();
    assert_eq!(fs.read(fd, 1), Err(FsError::NotFound));
    assert_eq!(fs.write(fd, b"x"), Err(FsError::NotFound));
}

#[test]
fn open_symlink_to_directory_fails() {
    let mut fs = VirtualFs::new();
    fs.mkdir("/d").unwrap();
    fs.create_symlink("/l", "/d").unwrap();
    assert_eq!(fs.open("/l", OpenMode::Read), Err(FsError::IsADirectory));
}

// ---- mounting --------------------------------------------------------------

#[test]
fn mount_then_unmount_law() {
    let mut fs = VirtualFs::new();
    fs.mkdir("/mnt").unwrap();
    let before = fs.inode_count();
    fs.mount("/mnt", "disk").unwrap();
    assert_eq!(fs.inode_count(), before + 1);
    assert_eq!(fs.list_mounts()[0].mount_path, "/mnt");
    fs.unmount("/mnt").unwrap();
    assert!(fs.list_mounts().is_empty());
    assert_eq!(fs.unmount("/mnt"), Err(FsError::MountPointNotFound));
}

#[test]
fn mounted_path_starts_at_mount_root() {
    let mut fs = VirtualFs::new();
    fs.mkdir("/mnt").unwrap();
    let under = fs.resolve_path("/mnt").unwrap();
    fs.mount("/mnt", "disk").unwrap();
    // the mount point shows the new, empty filesystem
    let root = fs.list_mounts()[0].root_inode;
    assert_ne!(root, under);
    assert!(fs.path_exists("/mnt"));
    assert_eq!(fs.resolve_path("/mnt"), Ok(root));
    assert_eq!(fs.stat("/mnt").unwrap().id, root);
    assert_eq!(fs.list_dir("/mnt"), Ok(vec![]));
    assert!(fs.resolve_path("/mntx").is_err());
    assert!(fs.resolve_path("/").is_ok());
    // things created below the mount point live in the mounted filesystem
    let a = fs.mkdir("/mnt/a").unwrap();
    assert_eq!(fs.resolve_path("/mnt/a"), Ok(a));
    assert_eq!(fs.list_dir("/mnt"), Ok(vec!["a".to_string()]));
    fs.create_file("/mnt/a/f").unwrap();
    fs.write_file("/mnt/a/f", b"hi").unwrap();
    assert_eq!(fs.read_file("/mnt/a/f"), Ok(b"hi".to_vec()));
    fs.unmount("/mnt").unwrap();
    // back to the directory underneath, which still holds its own entry
    assert_eq!(fs.resolve_path("/mnt"), Ok(under));
    assert_eq!(fs.list_dir("/mnt"), Ok(vec![]));
    assert!(!fs.path_exists("/mnt/a"));
}

#[test]
fn mount_errors() {
    let mut fs = VirtualFs::new();
    assert_eq!(fs.mount("/nope", "x"), Err(FsError::NotFound));
    fs.mkdir("/d").unwrap();
    fs.mkdir("/d/e").unwrap();
    assert_eq!(fs.mount("/d", "x"), Err(FsError::MountPointNotEmpty));
}

// ---- buffered I/O ----------------------------------------------------------

#[test]
fn buf_writer_zero_capacity_writes_through() {
    let mut fs = fs_with_file("/f", b"");
    let fd = fs.open("/f", OpenMode::Write).unwrap();
    let mut bw = BufWriter::new(fd, 0);
    bw.write(&mut fs, b"abc").unwrap();
    assert_eq!(bw.buffered_len(), 0);
    assert_eq!(fs.read_file("/f").unwrap(), b"abc");
}

#[test]
fn buf_writer_keeps_the_remainder() {
    let mut fs = fs_with_file("/f", b"");
    let fd = fs.open("/f", OpenMode::Write).unwrap();
    let mut bw = BufWriter::new(fd, 3);
    bw.write(&mut fs, b"abcdefg").unwrap();
    assert_eq!(bw.buffered_len(), 1);
    assert_eq!(fs.read_file("/f").unwrap(), b"abcdef");
    bw.write(&mut fs, b"h").unwrap();
    assert_eq!(bw.buffered_len(), 2);
    bw.flush(&mut fs).unwrap();
    assert_eq!(fs.read_file("/f").unwrap(), b"abcdefgh");
}

#[test]
fn buf_writer_error_drops_buffer() {
    let mut fs = fs_with_file("/f", b"");
    let fd = fs.open("/f", OpenMode::Read).unwrap();
    let mut bw = BufWriter::new(fd, 2);
    assert_eq!(bw.write(&mut fs, b"a"), Ok(()));
    assert_eq!(bw.write(&mut fs, b"bc"), Err(FsError::ReadOnly));
    assert_eq!(bw.buffered_len(), 0);
    assert_eq!(bw.flush(&mut fs), Ok(()));
    assert!(fs.read_file("/f").unwrap().is_empty());
}

#[test]
fn buf_reader_spans_chunks() {
    let mut fs = fs_with_file("/f", b"0123456789");
    let fd = fs.open("/f", OpenMode::Read).unwrap();
    let mut br = BufReader::new(fd, 3);
    assert_eq!(br.read(&mut fs, 2).unwrap(), b"01");
    assert_eq!(br.read(&mut fs, 5).unwrap(), b"23456");
    assert_eq!(br.read(&mut fs, 0).unwrap(), b"");
    assert_eq!(br.read(&mut fs, 100).unwrap(), b"789");
    assert!(br.read(&mut fs, 1).unwrap().is_empty());
}

#[test]
fn buf_reader_zero_chunk_reads_nothing() {
    let mut fs = fs_with_file("/f", b"abc");
    let fd = fs.open("/f", OpenMode::Read).unwrap();
    let mut br = BufReader::new(fd, 0);
    assert!(br.read(&mut fs, 2).unwrap().is_empty());
    assert_eq!(fs.tell(fd), Ok(0));
}

#[test]
fn buf_reader_errors() {
    let mut fs = fs_with_file("/f", b"abc");
    let fd = fs.open("/f", OpenMode::Write).unwrap();
    let mut br = BufReader::new(fd, 4);
    assert_eq!(br.read(&mut fs, 1), Err(FsError::WriteOnly));
    let mut bad = BufReader::new(77, 4);
    assert_eq!(bad.read(&mut fs, 1), Err(FsError::InvalidFileDescriptor));
    assert!(bad.read(&mut fs, 0).unwrap().is_empty());
}

// ---- permissions and messages ----------------------------------------------

#[test]
fn permissions_roundtrip_all() {
    for r in [false, true] {
        for w in [false, true] {
            for x in [false, true] {
                let p = Permissions::new(r, w, x);
                assert_eq!(Permissions::from_octal(p.as_octal()), p);
            }
        }
    }
    assert_eq!(Permissions::from_octal(0xFF), Permissions::all());
    assert_eq!(Permissions::read_write().as_octal(), 6);
    assert_eq!(Permissions::read_write().to_rwx_string(), "rw-");
    assert_eq!(Permissions::from_octal(3).to_rwx_string(), "-wx");
}

#[test]
fn every_error_has_its_message() {
    let all = [
        (FsError::NotFound, "not found"),
        (FsError::AlreadyExists, "already exists"),
        (FsError::NotADirectory, "not a directory"),
        (FsError::IsADirectory, "is a directory"),
        (FsError::NotEmpty, "directory not empty"),
        (FsError::PermissionDenied, "permission denied"),
        (FsError::InvalidPath, "invalid path"),
        (FsError::InvalidFileDescriptor, "invalid file descriptor"),
        (FsError::SymlinkLoop, "too many symlink levels"),
        (FsError::NotASymlink, "not a symlink"),
        (FsError::MountPointNotEmpty, "mount point not empty"),
        (FsError::MountPointNotFound, "mount point not found"),
        (FsError::CrossMount, "cross-mount operation"),
        (FsError::BufferFull, "buffer full"),
        (FsError::EndOfFile, "end of file"),
        (FsError::ReadOnly, "file descriptor is read-only"),
        (FsError::WriteOnly, "file descriptor is write-only"),
    ];
    for (e, m) in all {
        assert_eq!(e.message(), m);
    }
}

// ---- resolution laws on concrete values ----------------------------------------

#[test]
fn dot_and_empty_components_change_nothing() {
    let mut fs = VirtualFs::new();
    let a = fs.mkdir("/a").unwrap();
    let b = fs.mkdir("/a/b").unwrap();
    assert_eq!(fs.resolve_path("/a/b/."), Ok(b));
    assert_eq!(fs.resolve_path("//a/b"), Ok(b));
    assert_eq!(fs.resolve_path("/a/b//"), Ok(b));
    assert_eq!(fs.resolve_path("/a//./b"), Ok(b));
    assert_eq!(fs.resolve_path("/a/."), Ok(a));
    assert_eq!(fs.resolve_path("/.."), Ok(fs.root_inode()));
}

#[test]
fn stat_goes_where_lstat_symlink_points() {
    let mut fs = VirtualFs::new();
    fs.create_file("/real").unwrap();
    let l = fs.create_symlink("/link", "/real").unwrap();
    assert_eq!(fs.resolve_path_no_follow("/link"), Ok(l));
    assert_eq!(fs.resolve_path("/link"), fs.resolve_path("/real"));
    assert!(fs.lstat("/link").unwrap().is_symlink());
    assert!(fs.stat("/link").unwrap().is_file());
}

#[test]
fn second_mkdir_p_changes_nothing() {
    let mut fs = VirtualFs::new();
    let id = fs.mkdir_p("/x/y/z").unwrap();
    let count = fs.inode_count();
    assert_eq!(fs.mkdir_p("/x/y/z"), Ok(id));
    assert_eq!(fs.inode_count(), count);
    assert_eq!(fs.list_dir("/x/y"), Ok(vec!["z".to_string()]));
}

#[test]
fn rmdir_after_mkdir_restores() {
    let mut fs = VirtualFs::new();
    fs.mkdir("/p").unwrap();
    let count = fs.inode_count();
    let links = fs.stat("/p").unwrap().link_count;
    let id = fs.mkdir("/p/q").unwrap();
    fs.rmdir("/p/q").unwrap();
    assert!(!fs.path_exists("/p/q"));
    assert!(fs.get_inode(id).is_none());
    assert_eq!(fs.inode_count(), count);
    assert_eq!(fs.stat("/p").unwrap().link_count, links);
    assert_eq!(fs.list_dir("/p"), Ok(vec![]));
}

#[test]
fn read_with_huge_len_reads_the_rest() {
    let mut fs = fs_with_file("/f", b"hello");
    let fd = fs.open("/f", OpenMode::Read).unwrap();
    assert_eq!(fs.read(fd, 1), Ok(b"h".to_vec()));
    assert_eq!(fs.read(fd, usize::MAX), Ok(b"ello".to_vec()));
    assert_eq!(fs.tell(fd), Ok(5));
    fs.seek(fd, u64::MAX).unwrap();
    assert_eq!(fs.read(fd, usize::MAX), Ok(vec![]));
    assert_eq!(fs.tell(fd), Ok(5));
}

#[test]
fn buffered_reads_match_unbuffered_reads() {
    let data = b"hello world! and some more bytes";
    let mut fs = fs_with_file("/f", data);
    let fd = fs.open("/f", OpenMode::Read).unwrap();
    let mut br = BufReader::new(fd, 4);
    let mut got = Vec::new();
    for len in [5usize, 0, 3, 7, 1, 100] {
        let part = br.read(&mut fs, len).unwrap();
        let expect_end = (got.len() + len).min(data.len());
        assert_eq!(part, data[got.len()..expect_end].to_vec());
        got.extend_from_slice(&part);
    }
    assert_eq!(got, data.to_vec());
    let mut big = BufReader::new(fs.open("/f", OpenMode::Read).unwrap(), usize::MAX / 2);
    assert_eq!(big.read(&mut fs, 5), Ok(b"hello".to_vec()));
}

#[test]
fn mkdir_p_with_a_component_ending_in_whitespace() {
    // "/a " trims to "/a", so the first call makes "/a" and then "/a/b", but
    // a later lookup of "/a /b" looks for an entry "a " that does not exist.
    let mut fs = VirtualFs::new();
    let b = fs.mkdir_p("/a /b").unwrap();
    assert_eq!(fs.resolve_path("/a/b"), Ok(b));
    let count = fs.inode_count();
    assert_eq!(fs.mkdir_p("/a /b"), Err(FsError::AlreadyExists));
    assert_eq!(fs.inode_count(), count);
}

#[test]
fn mount_at_the_root_covers_every_path() {
    // A mount at "/" shows the new filesystem at "/" and everywhere below it.
    let mut fs = VirtualFs::new();
    let old_root = fs.root_inode();
    fs.mount("/", "top").unwrap();
    let top = fs.list_mounts()[0].root_inode;
    assert_eq!(fs.resolve_path("/"), Ok(top));
    let c = fs.mkdir_p("/c").unwrap();
    assert_eq!(fs.list_dir("/"), Ok(vec!["c".to_string()]));
    assert_eq!(fs.resolve_path("/c"), Ok(c));
    assert_eq!(fs.mkdir_p("/c"), Ok(c));
    assert_eq!(fs.resolve_path("/.."), Ok(top));
    fs.unmount("/").unwrap();
    assert_eq!(fs.resolve_path("/"), Ok(old_root));
    assert!(!fs.path_exists("/c"));
}

#[test]
fn mount_path_with_trailing_slash() {
    // "/mnt/" is mounted where "/mnt" is.
    let mut fs = VirtualFs::new();
    fs.mkdir("/mnt").unwrap();
    fs.mount("/mnt/", "disk").unwrap();
    let root = fs.list_mounts()[0].root_inode;
    assert_eq!(fs.resolve_path("/mnt"), Ok(root));
    assert_eq!(fs.resolve_path("/mnt/"), Ok(root));
    let a = fs.mkdir("/mnt/a").unwrap();
    assert_eq!(fs.resolve_path("/mnt/a"), Ok(a));
    assert!(fs.resolve_path("/mntx").is_err());
}

#[test]
fn mkdir_p_with_a_last_component_ending_in_whitespace() {
    // Only a middle component ending in whitespace upsets a second call.
    let mut fs = VirtualFs::new();
    let b = fs.mkdir_p("/a/b /").unwrap();
    assert_eq!(fs.resolve_path("/a/b"), Ok(b));
    let count = fs.inode_count();
    assert_eq!(fs.mkdir_p("/a/b /"), Ok(b));
    assert_eq!(fs.inode_count(), count);
    let a = fs.resolve_path("/a").unwrap();
    assert_eq!(fs.mkdir_p("/a/ /"), Ok(a));
}

#[test]
fn mkdir_p_twice_below_a_mount() {
    let mut fs = VirtualFs::new();
    fs.mkdir("/mnt").unwrap();
    fs.mount("/mnt", "disk").unwrap();
    let id = fs.mkdir_p("/mnt/x/y").unwrap();
    let count = fs.inode_count();
    assert_eq!(fs.mkdir_p("/mnt/x/y"), Ok(id));
    assert_eq!(fs.inode_count(), count);
    assert_eq!(fs.resolve_path("/mnt/x/y"), Ok(id));
}

#[test]
fn buf_reader_refills_only_what_it_needs() {
    let mut fs = fs_with_file("/f", b"0123456789");
    let fd = fs.open("/f", OpenMode::Read).unwrap();
    let mut br = BufReader::new(fd, 4);
    // 5 bytes need two chunks of 4: the descriptor moves to 8, not further
    assert_eq!(br.read(&mut fs, 5).unwrap(), b"01234");
    assert_eq!(fs.tell(fd), Ok(8));
    // what is held is handed out without touching the descriptor
    assert_eq!(br.read(&mut fs, 3).unwrap(), b"567");
    assert_eq!(fs.tell(fd), Ok(8));
    // more than is left: the rest of the file, then an empty chunk at the end
    assert_eq!(br.read(&mut fs, 100).unwrap(), b"89");
    assert_eq!(fs.tell(fd), Ok(10));
    // a chunk size of 0 reads nothing and leaves the descriptor where it was
    let fd2 = fs.open("/f", OpenMode::Read).unwrap();
    fs.seek(fd2, 3).unwrap();
    let mut zero = BufReader::new(fd2, 0);
    assert!(zero.read(&mut fs, 4).unwrap().is_empty());
    assert_eq!(fs.tell(fd2), Ok(3));
    // an exact fit stops at the chunk that supplies the last byte needed
    let fd3 = fs.open("/f", OpenMode::Read).unwrap();
    let mut exact = BufReader::new(fd3, 5);
    assert_eq!(exact.read(&mut fs, 10).unwrap(), b"0123456789");
    assert_eq!(fs.tell(fd3), Ok(10));
}

#[test]
fn rmdir_after_mkdir_leaves_the_path_unresolved() {
    let mut fs = VirtualFs::new();
    fs.mkdir("/p").unwrap();
    fs.mkdir("/p/q").unwrap();
    fs.rmdir("/p/q").unwrap();
    assert_eq!(fs.resolve_path("/p/q"), Err(FsError::NotFound));
    assert_eq!(fs.list_dir("/p"), Ok(vec![]));
}
