use vstd::prelude::*;
use vstd::utf8::encode_utf8;

use axerrno::LinuxError;

use crate::ctypes::{stat, timespec, AT_FDCWD, O_CREAT, O_DIRECTORY, O_RDONLY, UTIME_NOW, UTIME_OMIT};
use crate::fd_table::{is_first_free, is_full, is_open, lemma_reuse_freed_descriptor, FdTable};
use crate::file::{
    checked_add_signed, fresh_file, seek_spec, Directory, File, FileLike, FileLikeV, FileV, PollState,
    SeekFrom,
};
use crate::memfs::{
    create_dir_spec, lookup_file, open_dir_spec, open_file_spec, read_spec, remove_file_spec,
    rename_spec, written, Entry, MemFs,
};
use crate::options::{flags_to_options, lemma_read_only_flags_cannot_write, options_of, OpenOptions};
use crate::path::{
    is_absolute, join, lemma_parent_of_join, lemma_root_path_absolute, parent_of, root_path, slash, starts_with_slash,
    to_root_path,
};

verus! {

/// The directory that descriptor `fd` stands for, if it stands for one.
pub open spec fn dir_at(fds: Seq<Option<FileLikeV>>, fd: int) -> Option<Seq<char>> {
    if is_open(fds, fd) {
        match fds[fd] {
            Some(FileLikeV::Directory(d)) => Some(d),
            _ => None,
        }
    } else {
        None
    }
}

/// The file that descriptor `fd` stands for, if it stands for one.
pub open spec fn file_at(fds: Seq<Option<FileLikeV>>, fd: int) -> Option<FileV> {
    if is_open(fds, fd) {
        match fds[fd] {
            Some(FileLikeV::File(f)) => Some(f),
            _ => None,
        }
    } else {
        None
    }
}

/// The absolute path that `path` names for a call given `dirfd`: an
/// absolute path, or any path with `AT_FDCWD`, is taken from the working
/// directory `cwd`; any other path from the directory of `dirfd`.
pub open spec fn resolve_spec(
    cwd: Seq<char>,
    fds: Seq<Option<FileLikeV>>,
    dirfd: i32,
    path: Seq<char>,
) -> Result<Seq<char>, LinuxError> {
    if is_absolute(path) || dirfd == AT_FDCWD {
        match root_path(cwd, path) {
            Some(q) => Ok(q),
            None => Err(LinuxError::EINVAL),
        }
    } else {
        match dir_at(fds, dirfd as int) {
            Some(d) => match root_path(d, path) {
                Some(q) => Ok(q),
                None => Err(LinuxError::EINVAL),
            },
            None => Err(LinuxError::EBADF),
        }
    }
}

/// Opening `p` as a file, or where that fails, as a directory: the store
/// afterwards and the object opened, or the error. The retry as a
/// directory asks for traversal and drops exclusive creation; an `EINVAL`
/// from it is reported as `ENOTDIR`.
pub open spec fn fallback_spec(m: Map<Seq<char>, Entry>, p: Seq<char>, o: OpenOptions) -> Result<
    (Map<Seq<char>, Entry>, FileLikeV),
    LinuxError,
> {
    match open_file_spec(m, p, o) {
        Ok(m2) => Ok((m2, FileLikeV::File(fresh_file(p, o)))),
        Err(_) => match open_dir_spec(m, p, o.dir_retry_spec()) {
            Ok(_) => Ok((m, FileLikeV::Directory(p))),
            Err(e) => Err(
                if e == LinuxError::EINVAL {
                    LinuxError::ENOTDIR
                } else {
                    e
                },
            ),
        },
    }
}

/// Opening `p` with `o`: as a directory alone where `o` asks for one, else
/// with the fallback.
pub open spec fn open_spec(m: Map<Seq<char>, Entry>, p: Seq<char>, o: OpenOptions) -> Result<
    (Map<Seq<char>, Entry>, FileLikeV),
    LinuxError,
> {
    if o.directory {
        match open_dir_spec(m, p, o) {
            Ok(_) => Ok((m, FileLikeV::Directory(p))),
            Err(e) => Err(e),
        }
    } else {
        fallback_spec(m, p, o)
    }
}

/// The store and descriptors before (`m0`, `s0`) and after (`m1`, `s1`)
/// an open whose outcome is `out` and whose result is `r`: the object
/// opened takes the smallest free descriptor, or the call fails with
/// `EMFILE` where there is none.
pub open spec fn registered(
    m0: Map<Seq<char>, Entry>,
    s0: Seq<Option<FileLikeV>>,
    m1: Map<Seq<char>, Entry>,
    s1: Seq<Option<FileLikeV>>,
    r: Result<i32, LinuxError>,
    out: Result<(Map<Seq<char>, Entry>, FileLikeV), LinuxError>,
) -> bool {
    match out {
        Err(e) => r == Err::<i32, LinuxError>(e) && m1 == m0 && s1 == s0,
        Ok((m2, obj)) => m1 == m2 && if is_full(s0) {
            r == Err::<i32, LinuxError>(LinuxError::EMFILE) && s1 == s0
        } else {
            r is Ok && is_first_free(s0, r->Ok_0 as int) && s1 == s0.update(
                r->Ok_0 as int,
                Some(obj),
            )
        },
    }
}

/// The file type that `stat` reports for a regular file.
pub const FILE_TYPE: u32 = 0o10;

/// The permission bits that `stat` reports for a regular file.
pub const FILE_PERM: u32 = 0o644;

/// The number of 512-byte blocks that `size` bytes take.
pub open spec fn blocks_of(size: u64) -> u64 {
    (size / 512 + if size % 512 == 0 {
        0u64
    } else {
        1u64
    }) as u64
}

/// The metadata of a regular file of `size` bytes with the given times.
pub open spec fn file_stat(size: u64, atime: timespec, mtime: timespec) -> stat {
    stat {
        st_dev: 0,
        st_ino: 1,
        st_mode: (FILE_TYPE << 12u32) | FILE_PERM,
        st_nlink: 1,
        st_uid: 1000,
        st_gid: 1000,
        st_rdev: 0,
        st_size: size as i64,
        st_blksize: 512,
        st_blocks: blocks_of(size) as i64,
        st_atime: atime,
        st_mtime: mtime,
        st_ctime: timespec { tv_sec: 0, tv_nsec: 0 },
    }
}

/// The seek that `whence` asks for: 0 from the start, 1 from the current
/// position, 2 from the end.
pub open spec fn whence_spec(offset: i64, whence: i32) -> Option<SeekFrom> {
    if whence == 0 {
        Some(SeekFrom::Start(offset as u64))
    } else if whence == 1 {
        Some(SeekFrom::Current(offset))
    } else if whence == 2 {
        Some(SeekFrom::End(offset))
    } else {
        None
    }
}

/// The new position of descriptor `fd` after `lseek(fd, offset, whence)`,
/// or the error.
pub open spec fn lseek_spec(
    m: Map<Seq<char>, Entry>,
    fds: Seq<Option<FileLikeV>>,
    fd: i32,
    offset: i64,
    whence: i32,
) -> Result<u64, LinuxError> {
    match whence_spec(offset, whence) {
        None => Err(LinuxError::EINVAL),
        Some(w) => match file_at(fds, fd as int) {
            None => Err(LinuxError::EBADF),
            Some(f) => match lookup_file(m, f.path) {
                Err(e) => Err(e),
                Ok(d) => match seek_spec(f.pos, d.len() as u64, w) {
                    Some(n) => Ok(n),
                    None => Err(LinuxError::EINVAL),
                },
            },
        },
    }
}

/// What reading at most `len` bytes from descriptor `fd` gives, or the
/// error. Only a file opened for reading can be read.
pub open spec fn read_fd_spec(
    m: Map<Seq<char>, Entry>,
    fds: Seq<Option<FileLikeV>>,
    fd: i32,
    len: usize,
) -> Result<Seq<u8>, LinuxError> {
    match file_at(fds, fd as int) {
        None => Err(LinuxError::EBADF),
        Some(f) => if !f.readable {
            Err(LinuxError::EACCES)
        } else {
            match lookup_file(m, f.path) {
                Err(e) => Err(e),
                Ok(d) => Ok(read_spec(d, f.pos as int, len as int)),
            }
        },
    }
}

/// Where a write through descriptor `fd` starts, and the contents of the
/// file, or the error. Only a file opened for writing can be written; one
/// opened for appending is written at its end.
pub open spec fn write_start_spec(
    m: Map<Seq<char>, Entry>,
    fds: Seq<Option<FileLikeV>>,
    fd: i32,
) -> Result<(int, Seq<u8>), LinuxError> {
    match file_at(fds, fd as int) {
        None => Err(LinuxError::EBADF),
        Some(f) => if !f.writable {
            Err(LinuxError::EACCES)
        } else {
            match lookup_file(m, f.path) {
                Err(e) => Err(e),
                Ok(d) => Ok(
                    (
                        if f.append {
                            d.len() as int
                        } else {
                            f.pos as int
                        },
                        d,
                    ),
                ),
            }
        },
    }
}

/// The metadata of the object of descriptor `fd`, or the error. Only a
/// file has metadata; a directory gives `EBADF`.
pub open spec fn fstat_spec(m: Map<Seq<char>, Entry>, fds: Seq<Option<FileLikeV>>, fd: i32) -> Result<
    stat,
    LinuxError,
> {
    match file_at(fds, fd as int) {
        None => Err(LinuxError::EBADF),
        Some(f) => match lookup_file(m, f.path) {
            Err(e) => Err(e),
            Ok(d) => Ok(file_stat(d.len() as u64, f.atime, f.mtime)),
        },
    }
}

/// The 32-bit little-endian number in the first four bytes of `b`.
pub open spec fn le_u32(b: Seq<u8>) -> u32 {
    (b[0] as u32) | ((b[1] as u32) << 8u32) | ((b[2] as u32) << 16u32) | ((b[3] as u32) << 24u32)
}

/// The request of `ioctl` that reads a 32-bit number from the file.
pub const IOCTL_READ_U32: i32 = 0x5401;

/// Options that ask for reading alone.
pub open spec fn read_only() -> OpenOptions {
    OpenOptions { read: true, ..OpenOptions::none() }
}

/// `obj` after a `utimensat` request for the times `atime` and `mtime` at
/// the instant `now`: a file takes them, a directory keeps no times.
pub open spec fn stamped(obj: FileLikeV, atime: timespec, mtime: timespec, now: timespec) -> FileLikeV {
    match obj {
        FileLikeV::File(f) => FileLikeV::File(
            FileV {
                atime: timespec::utime_result(f.atime, atime, now),
                mtime: timespec::utime_result(f.mtime, mtime, now),
                ..f
            },
        ),
        FileLikeV::Directory(d) => FileLikeV::Directory(d),
    }
}

/// The times that a `utimensat` call asks for: those given, or the
/// current time for both.
pub open spec fn requested_times(times: Option<(timespec, timespec)>, now: timespec) -> (
    timespec,
    timespec,
) {
    match times {
        Some(t) => t,
        None => (now, now),
    }
}

/// One mounted file system: the path it is attached at and its name.
pub struct MountEntry {
    pub root: String,
    pub fs_name: String,
}

/// The state that the file calls work on: the file store, the working
/// directory, the mount table and the descriptor table.
pub struct Vfs {
    fs: MemFs,
    cwd: String,
    mounts: Vec<MountEntry>,
    fds: FdTable,
}

impl Vfs {
    /// The files and directories, by absolute path.
    pub closed spec fn store(&self) -> Map<Seq<char>, Entry> {
        self.fs@
    }

    /// The working directory.
    pub closed spec fn cwd(&self) -> Seq<char> {
        self.cwd@
    }

    /// The descriptor table, slot by slot.
    pub closed spec fn fds(&self) -> Seq<Option<FileLikeV>> {
        self.fds@
    }

    /// The mount table: each root path with the name of its file system.
    pub closed spec fn mounts(&self) -> Seq<(Seq<char>, Seq<char>)> {
        self.mounts@.map_values(|e: MountEntry| (e.root@, e.fs_name@))
    }

    /// The store is well formed, the descriptors fit in an `i32`, no two
    /// mounts share a root, and the working directory and the path of each
    /// open file and directory are absolute.
    pub closed spec fn wf(&self) -> bool {
        &&& self.fs.wf()
        &&& self.fds@.len() <= i32::MAX
        &&& unique_roots(self.mounts())
        &&& is_absolute(self.cwd@)
        &&& paths_absolute(self.fds@)
    }

    /// A state whose store holds the root directory alone, with `/` as the
    /// working directory, `root_fs` mounted at `/`, and `max_fds` free
    /// descriptors.
    pub fn new(max_fds: usize, root_fs: &str) -> (r: Vfs)
        requires
            max_fds <= i32::MAX,
        ensures
            r.wf(),
            r.store() == map![seq!['/'] => Entry::Dir],
            r.cwd() == seq!['/'],
            r.mounts() == seq![(seq!['/'], root_fs@)],
            r.fds().len() == max_fds,
            forall|i: int| 0 <= i < max_fds ==> #[trigger] r.fds()[i] is None,
    {
        let mut mounts: Vec<MountEntry> = Vec::new();
        mounts.push(MountEntry { root: slash(), fs_name: String::from_str(root_fs) });
        let r = Vfs { fs: MemFs::new(), cwd: slash(), mounts, fds: FdTable::new(max_fds) };
        proof {
            assert(r.mounts() =~= seq![(seq!['/'], root_fs@)]);
        }
        r
    }

    /// The absolute path that `path` names for a call given `dirfd`; see
    /// [`resolve_spec`].
    fn resolve(&self, dirfd: i32, path: &str) -> (r: Result<String, LinuxError>)
        requires
            self.wf(),
        ensures
            r is Ok ==> is_absolute(r->Ok_0@),
            match resolve_spec(self.cwd(), self.fds(), dirfd, path@) {
                Ok(q) => r is Ok && r->Ok_0@ == q,
                Err(e) => r == Err::<String, LinuxError>(e),
            },
    {
        if starts_with_slash(path) || dirfd == AT_FDCWD {
            proof {
                lemma_root_path_absolute(self.cwd@, path@);
            }
            return to_root_path(self.cwd.as_str(), path);
        }
        match self.fds.get(dirfd) {
            Ok(FileLike::Directory(d)) => {
                proof {
                    assert(self.fds()[dirfd as int] == Some(FileLikeV::Directory(d.path@)));
                    lemma_root_path_absolute(d.path@, path@);
                }
                to_root_path(d.path.as_str(), path)
            },
            _ => Err(LinuxError::EBADF),
        }
    }

    /// Opens `p` as a file, and where that fails, as a directory, and
    /// registers what was opened; see [`fallback_spec`].
    fn add_file_or_directory_fd(&mut self, p: String, o: &OpenOptions) -> (r: Result<
        i32,
        LinuxError,
    >)
        requires
            old(self).wf(),
            is_absolute(p@),
        ensures
            final(self).wf(),
            final(self).cwd() == old(self).cwd(),
            final(self).mounts() == old(self).mounts(),
            registered(
                old(self).store(),
                old(self).fds(),
                final(self).store(),
                final(self).fds(),
                r,
                fallback_spec(old(self).store(), p@, *o),
            ),
    {
        match self.fs.open_file(&p, o) {
            Ok(()) => {
                let f = File::new(p, o);
                self.fds.add(FileLike::File(f))
            },
            Err(_) => {
                let retry = o.dir_retry();
                match self.fs.open_dir(&p, &retry) {
                    Ok(()) => self.fds.add(FileLike::Directory(Directory::new(p))),
                    Err(e) => Err(
                        match e {
                            LinuxError::EINVAL => LinuxError::ENOTDIR,
                            other => other,
                        },
                    ),
                }
            },
        }
    }

    /// Opens the absolute path `p` with `o` and registers what was opened;
    /// see [`open_spec`].
    fn open_resolved(&mut self, p: String, o: &OpenOptions) -> (r: Result<i32, LinuxError>)
        requires
            old(self).wf(),
            is_absolute(p@),
        ensures
            final(self).wf(),
            final(self).cwd() == old(self).cwd(),
            final(self).mounts() == old(self).mounts(),
            registered(
                old(self).store(),
                old(self).fds(),
                final(self).store(),
                final(self).fds(),
                r,
                open_spec(old(self).store(), p@, *o),
            ),
    {
        if o.has_directory() {
            match self.fs.open_dir(&p, o) {
                Ok(()) => self.fds.add(FileLike::Directory(Directory::new(p))),
                Err(e) => Err(e),
            }
        } else {
            self.add_file_or_directory_fd(p, o)
        }
    }

    /// Opens `filename` with the open flags `flags` and returns its
    /// descriptor: the smallest free one, or `EMFILE` where the table is
    /// full. A path that is a directory opens as a directory.
    pub fn sys_open(&mut self, filename: &str, flags: i32, mode: u32) -> (r: Result<i32, LinuxError>)
        requires
            old(self).wf(),
        ensures
            final(self).wf(),
            final(self).cwd() == old(self).cwd(),
            final(self).mounts() == old(self).mounts(),
            match resolve_spec(old(self).cwd(), old(self).fds(), AT_FDCWD, filename@) {
                Ok(q) => registered(
                    old(self).store(),
                    old(self).fds(),
                    final(self).store(),
                    final(self).fds(),
                    r,
                    open_spec(old(self).store(), q, options_of(flags as u32)),
                ),
                Err(e) => r == Err::<i32, LinuxError>(e) && final(self).store() == old(self).store()
                    && final(self).fds() == old(self).fds(),
            },
    {
        self.sys_openat(AT_FDCWD, filename, flags, mode)
    }

    /// Opens `filename` relative to the directory of `dirfd` (see
    /// [`resolve_spec`]) and returns its descriptor, as `sys_open` does.
    pub fn sys_openat(&mut self, dirfd: i32, filename: &str, flags: i32, mode: u32) -> (r: Result<
        i32,
        LinuxError,
    >)
        requires
            old(self).wf(),
        ensures
            final(self).wf(),
            final(self).cwd() == old(self).cwd(),
            final(self).mounts() == old(self).mounts(),
            match resolve_spec(old(self).cwd(), old(self).fds(), dirfd, filename@) {
                Ok(q) => registered(
                    old(self).store(),
                    old(self).fds(),
                    final(self).store(),
                    final(self).fds(),
                    r,
                    open_spec(old(self).store(), q, options_of(flags as u32)),
                ),
                Err(e) => r == Err::<i32, LinuxError>(e) && final(self).store() == old(self).store()
                    && final(self).fds() == old(self).fds(),
            },
    {
        let options = flags_to_options(flags, mode);
        let p = match self.resolve(dirfd, filename) {
            Ok(p) => p,
            Err(e) => return Err(e),
        };
        self.open_resolved(p, &options)
    }

    /// The file of descriptor `fd`, or `EBADF` where it stands for no file.
    fn file_ref(&self, fd: i32) -> (r: Result<&File, LinuxError>)
        ensures
            match file_at(self.fds(), fd as int) {
                Some(f) => r is Ok && r->Ok_0@ == f,
                None => r == Err::<&File, LinuxError>(LinuxError::EBADF),
            },
    {
        match self.fds.get(fd) {
            Ok(FileLike::File(f)) => Ok(f),
            _ => Err(LinuxError::EBADF),
        }
    }

    /// Moves the file of descriptor `fd` to `pos`.
    fn set_pos(&mut self, fd: i32, pos: u64)
        requires
            old(self).wf(),
            file_at(old(self).fds(), fd as int) is Some,
        ensures
            final(self).wf(),
            final(self).store() == old(self).store(),
            final(self).cwd() == old(self).cwd(),
            final(self).mounts() == old(self).mounts(),
            final(self).fds() == old(self).fds().update(
                fd as int,
                Some(FileLikeV::File(FileV { pos, ..file_at(old(self).fds(), fd as int)->Some_0 })),
            ),
    {
        let ghost s0 = self.fds();
        let obj = self.fds.take(fd);
        match obj {
            FileLike::File(mut f) => {
                f.pos = pos;
                self.fds.put(fd, FileLike::File(f));
            },
            FileLike::Directory(d) => {
                self.fds.put(fd, FileLike::Directory(d));
            },
        }
        proof {
            assert(self.fds() =~= s0.update(
                fd as int,
                Some(FileLikeV::File(FileV { pos, ..file_at(s0, fd as int)->Some_0 })),
            ));
        }
    }

    /// Moves the position of the file of `fd` and returns the new
    /// position; see [`lseek_spec`].
    pub fn sys_lseek(&mut self, fd: i32, offset: i64, whence: i32) -> (r: Result<u64, LinuxError>)
        requires
            old(self).wf(),
        ensures
            final(self).wf(),
            final(self).store() == old(self).store(),
            final(self).cwd() == old(self).cwd(),
            final(self).mounts() == old(self).mounts(),
            match lseek_spec(old(self).store(), old(self).fds(), fd, offset, whence) {
                Ok(n) => r == Ok::<u64, LinuxError>(n) && final(self).fds() == old(self).fds().update(
                    fd as int,
                    Some(
                        FileLikeV::File(FileV { pos: n, ..file_at(old(self).fds(), fd as int)->Some_0 }),
                    ),
                ),
                Err(e) => r == Err::<u64, LinuxError>(e) && final(self).fds() == old(self).fds(),
            },
    {
        let whence = if whence == 0 {
            SeekFrom::Start(offset as u64)
        } else if whence == 1 {
            SeekFrom::Current(offset)
        } else if whence == 2 {
            SeekFrom::End(offset)
        } else {
            return Err(LinuxError::EINVAL);
        };
        let f = match self.file_ref(fd) {
            Ok(f) => f,
            Err(e) => return Err(e),
        };
        let size = match self.fs.file_size(&f.path) {
            Ok(n) => n,
            Err(e) => return Err(e),
        };
        let next = match whence {
            SeekFrom::Start(o) => Some(o),
            SeekFrom::Current(d) => checked_add_signed(f.pos, d),
            SeekFrom::End(d) => checked_add_signed(size, d),
        };
        match next {
            Some(n) => {
                self.set_pos(fd, n);
                Ok(n)
            },
            None => Err(LinuxError::EINVAL),
        }
    }

    /// Reads at most `len` bytes from the position of the file of `fd`,
    /// and moves the position past them; see [`read_fd_spec`].
    pub fn read(&mut self, fd: i32, len: usize) -> (r: Result<Vec<u8>, LinuxError>)
        requires
            old(self).wf(),
        ensures
            final(self).wf(),
            final(self).store() == old(self).store(),
            final(self).cwd() == old(self).cwd(),
            final(self).mounts() == old(self).mounts(),
            match read_fd_spec(old(self).store(), old(self).fds(), fd, len) {
                Ok(b) => r is Ok && r->Ok_0@ == b && final(self).fds() == old(self).fds().update(
                    fd as int,
                    Some(
                        FileLikeV::File(
                            FileV {
                                pos: (file_at(old(self).fds(), fd as int)->Some_0.pos + b.len()) as u64,
                                ..file_at(old(self).fds(), fd as int)->Some_0
                            },
                        ),
                    ),
                ),
                Err(e) => r == Err::<Vec<u8>, LinuxError>(e) && final(self).fds() == old(self).fds(),
            },
    {
        let f = match self.file_ref(fd) {
            Ok(f) => f,
            Err(e) => return Err(e),
        };
        if !f.readable {
            return Err(LinuxError::EACCES);
        }
        let pos = f.pos;
        let out = match self.fs.read_at(&f.path, pos, len) {
            Ok(b) => b,
            Err(e) => return Err(e),
        };
        let ghost d = lookup_file(self.store(), f.path@)->Ok_0;
        proof {
            self.fs.lemma_sizes_fit();
            if out@.len() > 0 {
                assert(pos < d.len());
                assert(pos + out@.len() <= d.len());
            }
        }
        let n = out.len() as u64;
        self.set_pos(fd, pos + n);
        Ok(out)
    }

    /// Writes `buf` at the position of the file of `fd`, or at its end
    /// where it was opened for appending, and moves the position past what
    /// was written; see [`write_start_spec`].
    pub fn write(&mut self, fd: i32, buf: &[u8]) -> (r: Result<usize, LinuxError>)
        requires
            old(self).wf(),
        ensures
            final(self).wf(),
            final(self).cwd() == old(self).cwd(),
            final(self).mounts() == old(self).mounts(),
            match write_start_spec(old(self).store(), old(self).fds(), fd) {
                Ok((off, d)) => if off + buf@.len() > usize::MAX {
                    r == Err::<usize, LinuxError>(LinuxError::EFBIG) && final(self).store() == old(
                        self,
                    ).store() && final(self).fds() == old(self).fds()
                } else {
                    let f = file_at(old(self).fds(), fd as int)->Some_0;
                    &&& r == Ok::<usize, LinuxError>(buf@.len() as usize)
                    &&& final(self).store() == old(self).store().insert(
                        f.path,
                        Entry::File(written(d, off, buf@)),
                    )
                    &&& final(self).fds() == old(self).fds().update(
                        fd as int,
                        Some(FileLikeV::File(FileV { pos: (off + buf@.len()) as u64, ..f })),
                    )
                },
                Err(e) => r == Err::<usize, LinuxError>(e) && final(self).store() == old(self).store()
                    && final(self).fds() == old(self).fds(),
            },
    {
        let (path, pos, append) = match self.fds.get(fd) {
            Ok(FileLike::File(f)) => {
                if !f.writable {
                    return Err(LinuxError::EACCES);
                }
                (f.path.clone(), f.pos, f.append)
            },
            _ => return Err(LinuxError::EBADF),
        };
        proof {
            self.fs.lemma_sizes_fit();
        }
        let off = if append {
            match self.fs.file_size(&path) {
                Ok(n) => n,
                Err(e) => return Err(e),
            }
        } else {
            pos
        };
        let n = match self.fs.write_at(&path, off, buf) {
            Ok(n) => n,
            Err(e) => return Err(e),
        };
        self.set_pos(fd, off + n as u64);
        Ok(n)
    }

    /// The metadata of the file of `fd`, with the times set through
    /// `utimensat`; see [`fstat_spec`].
    pub fn sys_fstat(&self, fd: i32) -> (r: Result<stat, LinuxError>)
        requires
            self.wf(),
        ensures
            r == fstat_spec(self.store(), self.fds(), fd),
    {
        let f = match self.file_ref(fd) {
            Ok(f) => f,
            Err(e) => return Err(e),
        };
        match self.fs.file_size(&f.path) {
            Ok(size) => Ok(file_stat_of(size, f.atime, f.mtime)),
            Err(e) => Err(e),
        }
    }

    /// The metadata of the file at `path`. Its times are zero: they belong
    /// to descriptors, and this opens none.
    pub fn sys_stat(&self, path: &str) -> (r: Result<stat, LinuxError>)
        requires
            self.wf(),
        ensures
            match root_path(self.cwd(), path@) {
                None => r == Err::<stat, LinuxError>(LinuxError::EINVAL),
                Some(q) => match lookup_file(self.store(), q) {
                    Ok(d) => r == Ok::<stat, LinuxError>(
                        file_stat(
                            d.len() as u64,
                            timespec { tv_sec: 0, tv_nsec: 0 },
                            timespec { tv_sec: 0, tv_nsec: 0 },
                        ),
                    ),
                    Err(e) => r == Err::<stat, LinuxError>(e),
                },
            },
    {
        let p = match to_root_path(self.cwd.as_str(), path) {
            Ok(p) => p,
            Err(e) => return Err(e),
        };
        match self.fs.file_size(&p) {
            Ok(size) => Ok(file_stat_of(size, timespec::zero(), timespec::zero())),
            Err(e) => Err(e),
        }
    }

    /// The metadata of a symbolic link: links are not kept, so this is
    /// metadata with every field zero.
    pub fn sys_lstat(&self, path: &str) -> (r: Result<stat, LinuxError>)
        ensures
            r == Ok::<stat, LinuxError>(stat::zero_spec()),
    {
        Ok(stat::zeroed())
    }

    /// Readiness of the object of `fd`, or `EBADF` where it is not open.
    pub fn poll(&self, fd: i32) -> (r: Result<PollState, LinuxError>)
        ensures
            match file_at(self.fds(), fd as int) {
                Some(_) => r == Ok::<PollState, LinuxError>(PollState { readable: true, writable: true }),
                None => match dir_at(self.fds(), fd as int) {
                    Some(_) => r == Ok::<PollState, LinuxError>(
                        PollState { readable: true, writable: false },
                    ),
                    None => r == Err::<PollState, LinuxError>(LinuxError::EBADF),
                },
            },
    {
        match self.fds.get(fd) {
            Ok(FileLike::File(f)) => Ok(f.poll()),
            Ok(FileLike::Directory(d)) => Ok(d.poll()),
            Err(e) => Err(e),
        }
    }

    /// Accepts the non-blocking mode for any open descriptor: no call here
    /// blocks.
    pub fn set_nonblocking(&self, fd: i32, nonblocking: bool) -> (r: Result<(), LinuxError>)
        ensures
            is_open(self.fds(), fd as int) ==> r is Ok,
            !is_open(self.fds(), fd as int) ==> r == Err::<(), LinuxError>(LinuxError::EBADF),
    {
        match self.fds.get(fd) {
            Ok(_) => Ok(()),
            Err(e) => Err(e),
        }
    }

    /// `ioctl` on the file of `fd`: the request [`IOCTL_READ_U32`] reads
    /// four bytes from the file and returns them as a little-endian number;
    /// fewer than four bytes, or any other request, give `EINVAL`.
    pub fn sys_ioctl(&mut self, fd: i32, request: i32) -> (r: Result<i32, LinuxError>)
        requires
            old(self).wf(),
        ensures
            final(self).wf(),
            final(self).store() == old(self).store(),
            final(self).cwd() == old(self).cwd(),
            final(self).mounts() == old(self).mounts(),
            file_at(old(self).fds(), fd as int) is None ==> r == Err::<i32, LinuxError>(
                LinuxError::EBADF,
            ) && final(self).fds() == old(self).fds(),
            file_at(old(self).fds(), fd as int) is Some && request != IOCTL_READ_U32 ==> r == Err::<
                i32,
                LinuxError,
            >(LinuxError::EINVAL) && final(self).fds() == old(self).fds(),
            file_at(old(self).fds(), fd as int) is Some && request == IOCTL_READ_U32 ==> match read_fd_spec(
                old(self).store(),
                old(self).fds(),
                fd,
                4,
            ) {
                Ok(b) => (if b.len() == 4 {
                    r == Ok::<i32, LinuxError>(le_u32(b) as i32)
                } else {
                    r == Err::<i32, LinuxError>(LinuxError::EINVAL)
                }) && final(self).fds() == old(self).fds().update(
                    fd as int,
                    Some(
                        FileLikeV::File(
                            FileV {
                                pos: (file_at(old(self).fds(), fd as int)->Some_0.pos + b.len()) as u64,
                                ..file_at(old(self).fds(), fd as int)->Some_0
                            },
                        ),
                    ),
                ),
                Err(e) => r == Err::<i32, LinuxError>(e) && final(self).fds() == old(self).fds(),
            },
    {
        if let Err(e) = self.file_ref(fd) {
            return Err(e);
        }
        if request != IOCTL_READ_U32 {
            return Err(LinuxError::EINVAL);
        }
        let b = match self.read(fd, 4) {
            Ok(b) => b,
            Err(e) => return Err(e),
        };
        if b.len() != 4 {
            return Err(LinuxError::EINVAL);
        }
        let v = (b[0] as u32) | ((b[1] as u32) << 8u32) | ((b[2] as u32) << 16u32) | ((b[3] as u32)
            << 24u32);
        Ok(v as i32)
    }

    /// At most `size` bytes of the file of `fd` from `offset` on, without
    /// moving its position. An offset at or past the end gives `EINVAL`.
    pub fn read_file(&self, fd: i32, offset: usize, size: usize) -> (r: Result<Vec<u8>, LinuxError>)
        requires
            self.wf(),
        ensures
            match fstat_spec(self.store(), self.fds(), fd) {
                Err(e) => r == Err::<Vec<u8>, LinuxError>(e),
                Ok(_) => {
                    let d = lookup_file(
                        self.store(),
                        file_at(self.fds(), fd as int)->Some_0.path,
                    )->Ok_0;
                    if offset >= d.len() {
                        r == Err::<Vec<u8>, LinuxError>(LinuxError::EINVAL)
                    } else {
                        r is Ok && r->Ok_0@ == read_spec(d, offset as int, size as int)
                    }
                },
            },
    {
        let f = match self.file_ref(fd) {
            Ok(f) => f,
            Err(e) => return Err(e),
        };
        let file_size = match self.fs.file_size(&f.path) {
            Ok(n) => n,
            Err(e) => return Err(e),
        };
        proof {
            self.fs.lemma_sizes_fit();
        }
        if offset as u64 >= file_size {
            return Err(LinuxError::EINVAL);
        }
        let len = if size as u64 <= file_size - offset as u64 {
            size
        } else {
            (file_size - offset as u64) as usize
        };
        self.fs.read_at(&f.path, offset as u64, len)
    }

    /// Creates the directory `pathname`, resolved as [`resolve_spec`]
    /// says; see [`create_dir_spec`].
    pub fn sys_mkdirat(&mut self, dirfd: i32, pathname: &str, mode: u32) -> (r: Result<i32, LinuxError>)
        requires
            old(self).wf(),
        ensures
            final(self).wf(),
            final(self).cwd() == old(self).cwd(),
            final(self).mounts() == old(self).mounts(),
            final(self).fds() == old(self).fds(),
            match resolve_spec(old(self).cwd(), old(self).fds(), dirfd, pathname@) {
                Ok(q) => match create_dir_spec(old(self).store(), q) {
                    Ok(m) => r == Ok::<i32, LinuxError>(0) && final(self).store() == m,
                    Err(e) => r == Err::<i32, LinuxError>(e) && final(self).store() == old(self).store(),
                },
                Err(e) => r == Err::<i32, LinuxError>(e) && final(self).store() == old(self).store(),
            },
    {
        let p = match self.resolve(dirfd, pathname) {
            Ok(p) => p,
            Err(e) => return Err(e),
        };
        match self.fs.create_dir(&p) {
            Ok(()) => Ok(0),
            Err(e) => Err(e),
        }
    }

    /// Removes the file `pathname`, resolved as [`resolve_spec`] says; see
    /// [`remove_file_spec`].
    pub fn sys_unlinkat(&mut self, dirfd: i32, pathname: &str, flags: i32) -> (r: Result<
        i32,
        LinuxError,
    >)
        requires
            old(self).wf(),
        ensures
            final(self).wf(),
            final(self).cwd() == old(self).cwd(),
            final(self).mounts() == old(self).mounts(),
            final(self).fds() == old(self).fds(),
            match resolve_spec(old(self).cwd(), old(self).fds(), dirfd, pathname@) {
                Ok(q) => match remove_file_spec(old(self).store(), q) {
                    Ok(m) => r == Ok::<i32, LinuxError>(0) && final(self).store() == m,
                    Err(e) => r == Err::<i32, LinuxError>(e) && final(self).store() == old(self).store(),
                },
                Err(e) => r == Err::<i32, LinuxError>(e) && final(self).store() == old(self).store(),
            },
    {
        let p = match self.resolve(dirfd, pathname) {
            Ok(p) => p,
            Err(e) => return Err(e),
        };
        match self.fs.remove_file(&p) {
            Ok(()) => Ok(0),
            Err(e) => Err(e),
        }
    }

    /// Moves `old_path` to `new_path`, both taken from the working
    /// directory; a file at `new_path` is replaced. See [`rename_spec`].
    pub fn sys_rename(&mut self, old_path: &str, new_path: &str) -> (r: Result<i32, LinuxError>)
        requires
            old(self).wf(),
        ensures
            final(self).wf(),
            final(self).cwd() == old(self).cwd(),
            final(self).mounts() == old(self).mounts(),
            final(self).fds() == old(self).fds(),
            match (root_path(old(self).cwd(), old_path@), root_path(old(self).cwd(), new_path@)) {
                (Some(a), Some(b)) => match rename_spec(old(self).store(), a, b) {
                    Ok(m) => r == Ok::<i32, LinuxError>(0) && final(self).store() == m,
                    Err(e) => r == Err::<i32, LinuxError>(e) && final(self).store() == old(self).store(),
                },
                _ => r == Err::<i32, LinuxError>(LinuxError::EINVAL) && final(self).store() == old(
                    self,
                ).store(),
            },
    {
        let a = match to_root_path(self.cwd.as_str(), old_path) {
            Ok(p) => p,
            Err(e) => return Err(e),
        };
        let b = match to_root_path(self.cwd.as_str(), new_path) {
            Ok(p) => p,
            Err(e) => return Err(e),
        };
        match self.fs.rename(&a, &b) {
            Ok(()) => Ok(0),
            Err(e) => Err(e),
        }
    }

    /// Makes the directory `path` the working directory.
    pub fn sys_chdir(&mut self, path: &str) -> (r: Result<i32, LinuxError>)
        requires
            old(self).wf(),
        ensures
            final(self).wf(),
            final(self).store() == old(self).store(),
            final(self).mounts() == old(self).mounts(),
            final(self).fds() == old(self).fds(),
            match root_path(old(self).cwd(), path@) {
                Some(q) => match open_dir_spec(old(self).store(), q, read_only()) {
                    Ok(_) => r == Ok::<i32, LinuxError>(0) && final(self).cwd() == q,
                    Err(e) => r == Err::<i32, LinuxError>(e) && final(self).cwd() == old(self).cwd(),
                },
                None => r == Err::<i32, LinuxError>(LinuxError::EINVAL) && final(self).cwd() == old(
                    self,
                ).cwd(),
            },
    {
        let q = match to_root_path(self.cwd.as_str(), path) {
            Ok(p) => p,
            Err(e) => return Err(e),
        };
        let mut o = OpenOptions::new();
        o.read = true;
        match self.fs.open_dir(&q, &o) {
            Ok(()) => {
                self.cwd = q;
                Ok(0)
            },
            Err(e) => Err(e),
        }
    }

    /// The working directory as bytes with a terminating zero, for a buffer
    /// of `size` bytes; `ERANGE` where they do not fit.
    pub fn sys_getcwd(&self, size: usize) -> (r: Result<Vec<u8>, LinuxError>)
        ensures
            encode_utf8(self.cwd()).len() < size ==> r is Ok && r->Ok_0@ == encode_utf8(
                self.cwd(),
            ).push(0u8),
            encode_utf8(self.cwd()).len() >= size ==> r == Err::<Vec<u8>, LinuxError>(
                LinuxError::ERANGE,
            ),
    {
        let cwd = self.cwd.as_str().as_bytes();
        if cwd.len() >= size {
            return Err(LinuxError::ERANGE);
        }
        let mut out: Vec<u8> = Vec::new();
        let mut i: usize = 0;
        while i < cwd.len()
            invariant
                i <= cwd@.len(),
                out@ == cwd@.subrange(0, i as int),
            decreases cwd@.len() - i,
        {
            out.push(cwd[i]);
            proof {
                assert(out@ =~= cwd@.subrange(0, i as int + 1));
            }
            i = i + 1;
        }
        proof {
            assert(cwd@.subrange(0, cwd@.len() as int) =~= cwd@);
        }
        out.push(0u8);
        Ok(out)
    }

    /// Attaches the file system named `source`, which must be mounted
    /// already, at `target` as well: 0, or -1 where `source` is not mounted,
    /// `target` is empty, or something is mounted at `target` already.
    pub fn mount(&mut self, source: &str, target: &str, fstype: &str, flags: u64) -> (r: i32)
        requires
            old(self).wf(),
        ensures
            final(self).wf(),
            final(self).store() == old(self).store(),
            final(self).cwd() == old(self).cwd(),
            final(self).fds() == old(self).fds(),
            ({
                let ms = old(self).mounts();
                let known = exists|i: int| 0 <= i < ms.len() && (#[trigger] ms[i]).1 == source@;
                match root_path(old(self).cwd(), target@) {
                    Some(q) => if known && forall|i: int| 0 <= i < ms.len() ==> (#[trigger] ms[i]).0 != q {
                        r == 0 && final(self).mounts() == ms.push((q, source@))
                    } else {
                        r == -1 && final(self).mounts() == ms
                    },
                    None => r == -1 && final(self).mounts() == ms,
                }
            }),
    {
        let name = String::from_str(source);
        let mut known = false;
        let mut i: usize = 0;
        while i < self.mounts.len()
            invariant
                i <= self.mounts@.len(),
                self.mounts() == self.mounts@.map_values(|e: MountEntry| (e.root@, e.fs_name@)),
                name@ == source@,
                known <==> exists|j: int| 0 <= j < i && (#[trigger] self.mounts()[j]).1 == source@,
            decreases self.mounts@.len() - i,
        {
            let hit = self.mounts[i].fs_name == name;
            proof {
                assert(self.mounts()[i as int].1 == self.mounts@[i as int].fs_name@);
                if hit {
                    assert(self.mounts()[i as int].1 == source@);
                }
            }
            known = known || hit;
            i = i + 1;
        }
        if !known {
            return -1;
        }
        let q = match to_root_path(self.cwd.as_str(), target) {
            Ok(q) => q,
            Err(_) => return -1,
        };
        if self.find_mount(&q).is_some() {
            return -1;
        }
        let ghost ms = self.mounts();
        self.mounts.push(MountEntry { root: q, fs_name: name });
        proof {
            assert(self.mounts() =~= ms.push((q@, source@)));
        }
        0
    }

    /// The index of the mount at `root`.
    fn find_mount(&self, root: &String) -> (r: Option<usize>)
        ensures
            match r {
                Some(i) => i < self.mounts().len() && self.mounts()[i as int].0 == root@,
                None => forall|i: int| 0 <= i < self.mounts().len() ==> (#[trigger] self.mounts()[i]).0 != root@,
            },
    {
        let mut i: usize = 0;
        while i < self.mounts.len()
            invariant
                i <= self.mounts@.len(),
                self.mounts() == self.mounts@.map_values(|e: MountEntry| (e.root@, e.fs_name@)),
                forall|j: int| 0 <= j < i ==> (#[trigger] self.mounts()[j]).0 != root@,
            decreases self.mounts@.len() - i,
        {
            if self.mounts[i].root == *root {
                return Some(i);
            }
            i = i + 1;
        }
        None
    }

    /// Detaches what is mounted at `target`: 0, or -1 where `target` is
    /// empty. Nothing mounted there is no error.
    pub fn unmount(&mut self, target: &str) -> (r: i32)
        requires
            old(self).wf(),
        ensures
            final(self).wf(),
            final(self).store() == old(self).store(),
            final(self).cwd() == old(self).cwd(),
            final(self).fds() == old(self).fds(),
            ({
                let ms = old(self).mounts();
                match root_path(old(self).cwd(), target@) {
                    Some(q) => r == 0 && if exists|i: int| 0 <= i < ms.len() && (#[trigger] ms[i]).0 == q {
                        exists|i: int|
                            0 <= i < ms.len() && (#[trigger] ms[i]).0 == q && final(self).mounts() == ms.remove(i)
                    } else {
                        final(self).mounts() == ms
                    },
                    None => r == -1 && final(self).mounts() == ms,
                }
            }),
    {
        let q = match to_root_path(self.cwd.as_str(), target) {
            Ok(q) => q,
            Err(_) => return -1,
        };
        match self.find_mount(&q) {
            Some(i) => {
                let ghost ms = self.mounts();
                self.mounts.remove(i);
                proof {
                    assert(self.mounts() =~= ms.remove(i as int));
                    let s = self.mounts();
                    assert forall|a: int, b: int|
                        0 <= a < s.len() && 0 <= b < s.len() && a != b implies #[trigger] s[a].0
                        != #[trigger] s[b].0 by {
                        let a0 = if a < i { a } else { a + 1 };
                        let b0 = if b < i { b } else { b + 1 };
                        assert(s[a] == ms[a0] && s[b] == ms[b0]);
                    }
                }
            },
            None => {},
        }
        0
    }

    /// Sets the access and modification times of a file: to `times`, or
    /// where that is `None`, both to `now`, the current time. Each time is
    /// applied as `timespec::set_as_utime` says. A `dirfd` below zero other
    /// than `AT_FDCWD` is refused with `EBADF` first. Without `pathname`,
    /// `dirfd` itself must be an open file; with it, the path is resolved
    /// as [`resolve_spec`] says, opened for reading (as a file, or else as
    /// a directory) under a new descriptor that stays open, and the times
    /// are set on what was opened.
    pub fn sys_utimensat(
        &mut self,
        dirfd: i32,
        pathname: Option<&str>,
        times: Option<(timespec, timespec)>,
        flags: i32,
        now: timespec,
    ) -> (r: Result<i32, LinuxError>)
        requires
            old(self).wf(),
        ensures
            final(self).wf(),
            final(self).cwd() == old(self).cwd(),
            final(self).mounts() == old(self).mounts(),
            ({
                let (atime, mtime) = requested_times(times, now);
                let s0 = old(self).fds();
                if dirfd != AT_FDCWD && dirfd < 0 {
                    r == Err::<i32, LinuxError>(LinuxError::EBADF) && final(self).store() == old(
                        self,
                    ).store() && final(self).fds() == s0
                } else {
                    match pathname {
                        None => final(self).store() == old(self).store() && match file_at(
                            s0,
                            dirfd as int,
                        ) {
                            Some(f) => r == Ok::<i32, LinuxError>(0) && final(self).fds() == s0.update(
                                dirfd as int,
                                Some(stamped(FileLikeV::File(f), atime, mtime, now)),
                            ),
                            None => r == Err::<i32, LinuxError>(LinuxError::EBADF) && final(self).fds()
                                == s0,
                        },
                        Some(p) => match resolve_spec(old(self).cwd(), s0, dirfd, p@) {
                            Err(e) => r == Err::<i32, LinuxError>(e) && final(self).store() == old(
                                self,
                            ).store() && final(self).fds() == s0,
                            Ok(q) => match fallback_spec(old(self).store(), q, read_only()) {
                                Err(e) => r == Err::<i32, LinuxError>(e) && final(self).store() == old(
                                    self,
                                ).store() && final(self).fds() == s0,
                                Ok((m2, obj)) => final(self).store() == m2 && if is_full(s0) {
                                    r == Err::<i32, LinuxError>(LinuxError::EMFILE) && final(self).fds()
                                        == s0
                                } else {
                                    r == Ok::<i32, LinuxError>(0) && exists|k: int|
                                        is_first_free(s0, k) && final(self).fds() == s0.update(
                                            k,
                                            Some(stamped(obj, atime, mtime, now)),
                                        )
                                },
                            },
                        },
                    }
                }
            }),
    {
        if dirfd != AT_FDCWD && dirfd < 0 {
            return Err(LinuxError::EBADF);
        }
        let (atime, mtime) = match times {
            Some(t) => t,
            None => (now, now),
        };
        let fd = match pathname {
            None => dirfd,
            Some(p) => {
                let q = match self.resolve(dirfd, p) {
                    Ok(q) => q,
                    Err(e) => return Err(e),
                };
                let mut o = OpenOptions::new();
                o.read = true;
                match self.add_file_or_directory_fd(q, &o) {
                    Ok(fd) => fd,
                    Err(e) => return Err(e),
                }
            },
        };
        let ghost s1 = self.fds();
        if let Err(e) = self.file_ref(fd) {
            if pathname.is_none() {
                return Err(e);
            }
            return Ok(0);
        }
        let obj = self.fds.take(fd);
        match obj {
            FileLike::File(mut f) => {
                f.set_atime(atime, now);
                f.set_mtime(mtime, now);
                self.fds.put(fd, FileLike::File(f));
            },
            FileLike::Directory(d) => {
                self.fds.put(fd, FileLike::Directory(d));
            },
        }
        proof {
            assert(self.fds() =~= s1.update(fd as int, Some(stamped(s1[fd as int]->Some_0, atime, mtime, now))));
        }
        Ok(0)
    }

    /// Frees descriptor `fd`, or fails with `EBADF` where it is not open.
    pub fn close(&mut self, fd: i32) -> (r: Result<(), LinuxError>)
        requires
            old(self).wf(),
        ensures
            final(self).wf(),
            final(self).cwd() == old(self).cwd(),
            final(self).mounts() == old(self).mounts(),
            final(self).store() == old(self).store(),
            is_open(old(self).fds(), fd as int) ==> r is Ok && final(self).fds() == old(
                self,
            ).fds().update(fd as int, None),
            !is_open(old(self).fds(), fd as int) ==> r == Err::<(), LinuxError>(LinuxError::EBADF)
                && final(self).fds() == old(self).fds(),
    {
        self.fds.close(fd)
    }
}

/// The path of each open file and directory is absolute.
pub open spec fn paths_absolute(fds: Seq<Option<FileLikeV>>) -> bool {
    forall|i: int|
        0 <= i < fds.len() ==> match #[trigger] fds[i] {
            Some(FileLikeV::File(f)) => is_absolute(f.path),
            Some(FileLikeV::Directory(d)) => is_absolute(d),
            None => true,
        }
}

/// No two mounts share a root path.
pub open spec fn unique_roots(s: Seq<(Seq<char>, Seq<char>)>) -> bool {
    forall|i: int, j: int|
        0 <= i < s.len() && 0 <= j < s.len() && i != j ==> #[trigger] s[i].0 != #[trigger] s[j].0
}

/// A file opened with flags whose access mode is read only cannot be
/// written: a write through a descriptor that holds it fails with `EACCES`.
pub proof fn lemma_read_only_file_cannot_write(
    m: Map<Seq<char>, Entry>,
    p: Seq<char>,
    flags: u32,
    m2: Map<Seq<char>, Entry>,
    f: FileV,
    m3: Map<Seq<char>, Entry>,
    fds: Seq<Option<FileLikeV>>,
    fd: i32,
)
    requires
        flags & 0b11 == O_RDONLY,
        open_spec(m, p, options_of(flags)) == Ok::<(Map<Seq<char>, Entry>, FileLikeV), LinuxError>(
            (m2, FileLikeV::File(f)),
        ),
        file_at(fds, fd as int) == Some(f),
    ensures
        !f.writable,
        write_start_spec(m3, fds, fd) == Err::<(int, Seq<u8>), LinuxError>(LinuxError::EACCES),
{
    lemma_read_only_flags_cannot_write(flags);
}

/// A directory opened without `O_DIRECTORY` opens as a directory, and its
/// descriptor can be neither read, written nor queried for metadata: each
/// fails with `EBADF`.
pub proof fn lemma_directory_opens_as_directory(
    m: Map<Seq<char>, Entry>,
    p: Seq<char>,
    flags: u32,
    fds: Seq<Option<FileLikeV>>,
    fd: i32,
    len: usize,
)
    requires
        m.contains_key(p),
        m[p] == Entry::Dir,
        flags & O_DIRECTORY == 0,
        is_open(fds, fd as int),
        fds[fd as int] == Some(FileLikeV::Directory(p)),
    ensures
        open_spec(m, p, options_of(flags)) == Ok::<(Map<Seq<char>, Entry>, FileLikeV), LinuxError>(
            (m, FileLikeV::Directory(p)),
        ),
        read_fd_spec(m, fds, fd, len) == Err::<Seq<u8>, LinuxError>(LinuxError::EBADF),
        write_start_spec(m, fds, fd) == Err::<(int, Seq<u8>), LinuxError>(LinuxError::EBADF),
        fstat_spec(m, fds, fd) == Err::<stat, LinuxError>(LinuxError::EBADF),
{
}

/// Seeking to the end of a file, then by nothing from where that lands,
/// gives the size that `fstat` reports.
pub proof fn lemma_seek_end_then_current(m: Map<Seq<char>, Entry>, fds: Seq<Option<FileLikeV>>, fd: i32)
    requires
        file_at(fds, fd as int) is Some,
        lookup_file(m, file_at(fds, fd as int)->Some_0.path) is Ok,
        lookup_file(m, file_at(fds, fd as int)->Some_0.path)->Ok_0.len() <= i64::MAX,
    ensures
        ({
            let f = file_at(fds, fd as int)->Some_0;
            let size = lookup_file(m, f.path)->Ok_0.len() as u64;
            let after = fds.update(fd as int, Some(FileLikeV::File(FileV { pos: size, ..f })));
            &&& lseek_spec(m, fds, fd, 0, 2) == Ok::<u64, LinuxError>(size)
            &&& lseek_spec(m, after, fd, 0, 1) == Ok::<u64, LinuxError>(size)
            &&& fstat_spec(m, after, fd) is Ok
            &&& fstat_spec(m, after, fd)->Ok_0.st_size == size as i64
        }),
{
}

/// An open that succeeds on the store fails with `EMFILE` while every
/// descriptor is taken; once descriptor `fd` of that full table is closed,
/// the same open returns `fd`.
pub proof fn lemma_full_table_then_reuse(
    m0: Map<Seq<char>, Entry>,
    s0: Seq<Option<FileLikeV>>,
    fd: int,
    out: Result<(Map<Seq<char>, Entry>, FileLikeV), LinuxError>,
    m1: Map<Seq<char>, Entry>,
    s1: Seq<Option<FileLikeV>>,
    r1: Result<i32, LinuxError>,
    m2: Map<Seq<char>, Entry>,
    s2: Seq<Option<FileLikeV>>,
    r2: Result<i32, LinuxError>,
)
    requires
        is_full(s0),
        0 <= fd < s0.len(),
        out is Ok,
        registered(m0, s0, m1, s1, r1, out),
        registered(m0, s0.update(fd, None), m2, s2, r2, out),
    ensures
        r1 == Err::<i32, LinuxError>(LinuxError::EMFILE),
        r2 is Ok && r2->Ok_0 == fd,
{
    lemma_reuse_freed_descriptor(s0, fd);
}

/// `utimensat` without times sets both times of a file to the current
/// time.
pub proof fn lemma_utime_without_times_sets_now(f: FileV, now: timespec)
    requires
        0 <= now.tv_nsec < 1_000_000_000,
    ensures
        stamped(
            FileLikeV::File(f),
            requested_times(None, now).0,
            requested_times(None, now).1,
            now,
        ) == FileLikeV::File(FileV { atime: now, mtime: now, ..f }),
{
}

/// A time given as `UTIME_OMIT` is kept while the other, given as a plain
/// value, is set to that value.
pub proof fn lemma_utime_omit_keeps(f: FileV, atime: timespec, mtime: timespec, now: timespec)
    ensures
        atime.tv_nsec == UTIME_OMIT && mtime.tv_nsec != UTIME_NOW && mtime.tv_nsec != UTIME_OMIT
            ==> stamped(FileLikeV::File(f), atime, mtime, now) == FileLikeV::File(
            FileV { mtime, ..f },
        ),
        mtime.tv_nsec == UTIME_OMIT && atime.tv_nsec != UTIME_NOW && atime.tv_nsec != UTIME_OMIT
            ==> stamped(FileLikeV::File(f), atime, mtime, now) == FileLikeV::File(
            FileV { atime, ..f },
        ),
{
}

/// `openat` with `O_CREAT` of a new name through a descriptor of the
/// directory `a` creates a file at `a/name`, which an open of that
/// absolute path then finds.
pub proof fn lemma_openat_creates_file(
    cwd: Seq<char>,
    fds: Seq<Option<FileLikeV>>,
    m: Map<Seq<char>, Entry>,
    dirfd: i32,
    a: Seq<char>,
    name: Seq<char>,
    flags: u32,
)
    requires
        dir_at(fds, dirfd as int) == Some(a),
        m.contains_key(a),
        m[a] == Entry::Dir,
        is_absolute(a),
        a == seq!['/'] || a.last() != '/',
        name.len() > 0,
        forall|i: int| 0 <= i < name.len() ==> name[i] != '/',
        flags & O_CREAT != 0,
        flags & O_DIRECTORY == 0,
        !m.contains_key(join(a, name)),
    ensures
        ({
            let q = join(a, name);
            let out = open_spec(m, q, options_of(flags));
            &&& resolve_spec(cwd, fds, dirfd, name) == Ok::<Seq<char>, LinuxError>(q)
            &&& out is Ok
            &&& out->Ok_0.1 == FileLikeV::File(fresh_file(q, options_of(flags)))
            &&& resolve_spec(cwd, fds, AT_FDCWD, q) == Ok::<Seq<char>, LinuxError>(q)
            &&& open_spec(out->Ok_0.0, q, options_of(O_RDONLY)) == Ok::<
                (Map<Seq<char>, Entry>, FileLikeV),
                LinuxError,
            >((out->Ok_0.0, FileLikeV::File(fresh_file(q, options_of(O_RDONLY)))))
        }),
{
    let q = join(a, name);
    lemma_parent_of_join(a, name);
    assert(!is_absolute(name)) by {
        assert(name[0] != '/');
    }
    assert(!(name.len() >= 2 && name[0] == '.' && name[1] == '/'));
    assert(is_absolute(q)) by {
        if a.last() == '/' {
            assert(q[0] == a[0]);
        } else {
            assert(q[0] == a[0]);
        }
    }
    assert(options_of(O_RDONLY) == read_only()) by {
        assert(0u32 & 0b11u32 == 0u32) by (bit_vector);
        assert(0u32 & 0o2000u32 == 0u32) by (bit_vector);
        assert(0u32 & 0o1000u32 == 0u32) by (bit_vector);
        assert(0u32 & 0o100u32 == 0u32) by (bit_vector);
        assert(0u32 & 0o10000000u32 == 0u32) by (bit_vector);
        assert(0u32 & 0o200000u32 == 0u32) by (bit_vector);
    }
    let o = options_of(flags);
    assert(o.create);
    assert(parent_of(q) == a);
    assert(open_file_spec(m, q, o) == Ok::<Map<Seq<char>, Entry>, LinuxError>(
        m.insert(q, Entry::File(Seq::empty())),
    ));
    assert(resolve_spec(cwd, fds, dirfd, name) == Ok::<Seq<char>, LinuxError>(q));
}

/// The metadata of a regular file of `size` bytes with the given times;
/// see [`file_stat`].
pub fn file_stat_of(size: u64, atime: timespec, mtime: timespec) -> (r: stat)
    ensures
        r == file_stat(size, atime, mtime),
{
    let blocks = size / 512 + if size % 512 == 0 {
        0u64
    } else {
        1u64
    };
    stat {
        st_dev: 0,
        st_ino: 1,
        st_mode: (FILE_TYPE << 12u32) | FILE_PERM,
        st_nlink: 1,
        st_uid: 1000,
        st_gid: 1000,
        st_rdev: 0,
        st_size: size as i64,
        st_blksize: 512,
        st_blocks: blocks as i64,
        st_atime: atime,
        st_mtime: mtime,
        st_ctime: timespec::zero(),
    }
}

} // verus!
