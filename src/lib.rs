//! The file layer of a small kernel: Linux-shaped file calls (open,
//! openat, lseek, stat, mkdirat, unlinkat, rename, chdir, getcwd, mount,
//! utimensat) over an in-memory file store, with descriptors that stand for
//! files or directories.

pub mod ctypes;
pub mod errno;
pub mod fd_table;
pub mod file;
pub mod memfs;
pub mod options;
pub mod path;
pub mod times;
pub mod vfs;
