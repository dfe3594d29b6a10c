# alice-filesystem, verified

A virtual filesystem: inodes, a directory tree, rwx permissions, symlinks with
loop detection, mounting, path resolution, file descriptors and buffered I/O.
The library is written in Verus; every operation has a contract over a
mathematical model of the filesystem and is proved to meet it.

Layout:

- `src/model.rs` — the model (`FsView`: inodes, descriptors, mounts as maps
  and sequences) and what each operation does to it.
- `src/virtual_fs.rs` and `src/virtual_fs/` — `VirtualFs` and its operations:
  resolution and queries, creation and removal, file contents and
  descriptors, mounting.
- `src/path.rs` — path syntax: trimming, components, parent and name.
- `src/directory.rs` — directory contents, kept sorted by name.
- `src/laws.rs` — properties that relate operations, such as what
  `read_file` gives back after `write_file`.
- `src/buf_io.rs` — buffered writer and reader over descriptors.
- `tests/` — scenarios; `app/` — `Display` for errors and permissions.
