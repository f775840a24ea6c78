use vstd::prelude::*;

verus! {

/// Nanosecond value asking that a timestamp be set to the current time.
pub const UTIME_NOW: i64 = 0x3FFFFFFF;

/// Nanosecond value asking that a timestamp be left as it is.
pub const UTIME_OMIT: i64 = 0x3FFFFFFE;

/// The `dirfd` value that stands for the current working directory.
pub const AT_FDCWD: i32 = -100;

/// Access mode: read only.
pub const O_RDONLY: u32 = 0o0;

/// Access mode: write only.
pub const O_WRONLY: u32 = 0o1;

/// Access mode: read and write.
pub const O_RDWR: u32 = 0o2;

pub const O_CREAT: u32 = 0o100;

pub const O_TRUNC: u32 = 0o1000;

pub const O_APPEND: u32 = 0o2000;

pub const O_DIRECTORY: u32 = 0o200000;

pub const O_EXEC: u32 = 0o10000000;

/// A point in time: seconds and nanoseconds.
#[allow(non_camel_case_types)]
#[derive(Clone, Copy, Debug, PartialEq, Eq, Structural)]
pub struct timespec {
    pub tv_sec: i64,
    pub tv_nsec: i64,
}

impl timespec {
    /// The zero timestamp, which a file's timestamps start from.
    pub fn zero() -> (r: timespec)
        ensures
            r.tv_sec == 0 && r.tv_nsec == 0,
    {
        timespec { tv_sec: 0, tv_nsec: 0 }
    }

    /// What `set_as_utime` makes of `cur` when asked for `time` at the
    /// instant `now`.
    pub open spec fn utime_result(cur: timespec, time: timespec, now: timespec) -> timespec {
        if time.tv_nsec == UTIME_NOW {
            now
        } else if time.tv_nsec == UTIME_OMIT {
            cur
        } else {
            time
        }
    }

    /// Applies a `utimensat` request to this timestamp: `UTIME_NOW` sets it
    /// to `now`, `UTIME_OMIT` leaves it, and any other value is taken as is.
    pub fn set_as_utime(&mut self, time: timespec, now: timespec)
        ensures
            *final(self) == Self::utime_result(*old(self), time, now),
    {
        if time.tv_nsec == UTIME_NOW {
            *self = now;
        } else if time.tv_nsec == UTIME_OMIT {
        } else {
            *self = time;
        }
    }
}

/// File metadata as `stat` reports it.
#[allow(non_camel_case_types)]
#[derive(Clone, Copy, Debug, PartialEq, Eq, Structural)]
pub struct stat {
    pub st_dev: u64,
    pub st_ino: u64,
    pub st_mode: u32,
    pub st_nlink: u32,
    pub st_uid: u32,
    pub st_gid: u32,
    pub st_rdev: u64,
    pub st_size: i64,
    pub st_blksize: i32,
    pub st_blocks: i64,
    pub st_atime: timespec,
    pub st_mtime: timespec,
    pub st_ctime: timespec,
}

impl stat {
    /// Metadata with every field zero.
    pub fn zeroed() -> (r: stat)
        ensures
            r == stat::zero_spec(),
    {
        stat {
            st_dev: 0,
            st_ino: 0,
            st_mode: 0,
            st_nlink: 0,
            st_uid: 0,
            st_gid: 0,
            st_rdev: 0,
            st_size: 0,
            st_blksize: 0,
            st_blocks: 0,
            st_atime: timespec::zero(),
            st_mtime: timespec::zero(),
            st_ctime: timespec::zero(),
        }
    }

    pub open spec fn zero_spec() -> stat {
        stat {
            st_dev: 0,
            st_ino: 0,
            st_mode: 0,
            st_nlink: 0,
            st_uid: 0,
            st_gid: 0,
            st_rdev: 0,
            st_size: 0,
            st_blksize: 0,
            st_blocks: 0,
            st_atime: timespec { tv_sec: 0, tv_nsec: 0 },
            st_mtime: timespec { tv_sec: 0, tv_nsec: 0 },
            st_ctime: timespec { tv_sec: 0, tv_nsec: 0 },
        }
    }
}

} // verus!
