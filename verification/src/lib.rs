//! A virtual filesystem: inodes, a directory tree, rwx permissions, symlinks,
//! mounting, path resolution, file descriptors and buffered I/O.

pub mod buf_io;
pub mod directory;
pub mod errors;
pub mod fd;
pub mod inode;
pub mod laws;
pub mod model;
pub mod mount;
pub mod path;
pub mod permissions;
pub mod prelude;
pub mod text;
pub mod virtual_fs;

pub use crate::buf_io::{BufReader, BufWriter};
pub use crate::directory::DirEntry;
pub use crate::errors::{FsError, FsResult};
pub use crate::fd::{FileDescriptor, OpenMode};
pub use crate::inode::{Inode, InodeId, InodeKind};
pub use crate::mount::MountEntry;
pub use crate::permissions::Permissions;
pub use crate::virtual_fs::VirtualFs;
