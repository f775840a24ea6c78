use vstd::prelude::*;

use crate::ctypes::timespec;
use crate::options::OpenOptions;

verus! {

/// Where a seek starts from.
#[derive(Clone, Copy, Debug, PartialEq, Eq, Structural)]
pub enum SeekFrom {
    /// From the start of the file.
    Start(u64),
    /// From the end of the file.
    End(i64),
    /// From the current position.
    Current(i64),
}

/// What a descriptor can do without blocking.
#[derive(Clone, Copy, Debug, PartialEq, Eq, Structural)]
pub struct PollState {
    pub readable: bool,
    pub writable: bool,
}

/// `a + d`, where it is a `u64`.
pub open spec fn add_signed(a: u64, d: i64) -> Option<u64> {
    if 0 <= a + d <= u64::MAX {
        Some((a + d) as u64)
    } else {
        None
    }
}

/// The position that a seek from `pos` in a file of `size` bytes reaches.
pub open spec fn seek_spec(pos: u64, size: u64, whence: SeekFrom) -> Option<u64> {
    match whence {
        SeekFrom::Start(o) => Some(o),
        SeekFrom::Current(d) => add_signed(pos, d),
        SeekFrom::End(d) => add_signed(size, d),
    }
}

/// `a + d`, or `None` where that is not a `u64`.
pub fn checked_add_signed(a: u64, d: i64) -> (r: Option<u64>)
    ensures
        r == add_signed(a, d),
{
    let v: i128 = a as i128 + d as i128;
    if v < 0 || v > u64::MAX as i128 {
        None
    } else {
        Some(v as u64)
    }
}

/// An open regular file: its path, its position, the access it was opened
/// with, and the access and modification times set through `utimensat`.
pub struct File {
    pub path: String,
    pub pos: u64,
    pub readable: bool,
    pub writable: bool,
    pub append: bool,
    pub atime: timespec,
    pub mtime: timespec,
}

/// An open directory, under the absolute path that relative lookups
/// through it start from.
pub struct Directory {
    pub path: String,
}

/// Anything a descriptor can stand for.
pub enum FileLike {
    File(File),
    Directory(Directory),
}

/// The state of an open file.
pub struct FileV {
    pub path: Seq<char>,
    pub pos: u64,
    pub readable: bool,
    pub writable: bool,
    pub append: bool,
    pub atime: timespec,
    pub mtime: timespec,
}

/// The state of a descriptor's object.
pub enum FileLikeV {
    File(FileV),
    Directory(Seq<char>),
}

impl View for File {
    type V = FileV;

    open spec fn view(&self) -> FileV {
        FileV {
            path: self.path@,
            pos: self.pos,
            readable: self.readable,
            writable: self.writable,
            append: self.append,
            atime: self.atime,
            mtime: self.mtime,
        }
    }
}

impl View for FileLike {
    type V = FileLikeV;

    open spec fn view(&self) -> FileLikeV {
        match self {
            FileLike::File(f) => FileLikeV::File(f@),
            FileLike::Directory(d) => FileLikeV::Directory(d.path@),
        }
    }
}

/// A file just opened at `path` with `o`: at position 0, with both times
/// zero, writable only where `o` asks for writing.
pub open spec fn fresh_file(path: Seq<char>, o: OpenOptions) -> FileV {
    FileV {
        path,
        pos: 0,
        readable: o.read,
        writable: o.write,
        append: o.append,
        atime: timespec { tv_sec: 0, tv_nsec: 0 },
        mtime: timespec { tv_sec: 0, tv_nsec: 0 },
    }
}

impl File {
    /// The file at `path`, opened with `o`.
    pub fn new(path: String, o: &OpenOptions) -> (r: File)
        ensures
            r@ == fresh_file(path@, *o),
    {
        File {
            path,
            pos: 0,
            readable: o.read,
            writable: o.write,
            append: o.append,
            atime: timespec::zero(),
            mtime: timespec::zero(),
        }
    }

    /// Applies a `utimensat` request to the access time.
    pub fn set_atime(&mut self, atime: timespec, now: timespec)
        ensures
            final(self)@ == (FileV {
                atime: timespec::utime_result(old(self).atime, atime, now),
                ..old(self)@
            }),
    {
        self.atime.set_as_utime(atime, now);
    }

    /// Applies a `utimensat` request to the modification time.
    pub fn set_mtime(&mut self, mtime: timespec, now: timespec)
        ensures
            final(self)@ == (FileV {
                mtime: timespec::utime_result(old(self).mtime, mtime, now),
                ..old(self)@
            }),
    {
        self.mtime.set_as_utime(mtime, now);
    }

    /// A file can always be read and written without blocking.
    pub fn poll(&self) -> (r: PollState)
        ensures
            r == (PollState { readable: true, writable: true }),
    {
        PollState { readable: true, writable: true }
    }
}

impl Directory {
    pub fn new(path: String) -> (r: Directory)
        ensures
            r.path == path,
    {
        Directory { path }
    }

    /// The absolute path of the directory.
    pub fn path(&self) -> (r: &str)
        ensures
            r@ == self.path@,
    {
        self.path.as_str()
    }

    /// A directory reads as ready, and is never ready for writing.
    pub fn poll(&self) -> (r: PollState)
        ensures
            r == (PollState { readable: true, writable: false }),
    {
        PollState { readable: true, writable: false }
    }
}

} // verus!
