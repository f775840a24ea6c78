use vstd::prelude::*;

use crate::ctypes::{O_APPEND, O_CREAT, O_DIRECTORY, O_EXEC, O_RDONLY, O_TRUNC, O_WRONLY};

verus! {

/// How a file or directory is to be opened.
#[derive(Clone, Copy, Debug, PartialEq, Eq, Structural)]
pub struct OpenOptions {
    pub read: bool,
    pub write: bool,
    pub append: bool,
    pub truncate: bool,
    pub create: bool,
    pub create_new: bool,
    pub directory: bool,
    pub execute: bool,
}

impl OpenOptions {
    /// Options with nothing set.
    pub fn new() -> (r: OpenOptions)
        ensures
            r == OpenOptions::none(),
    {
        OpenOptions {
            read: false,
            write: false,
            append: false,
            truncate: false,
            create: false,
            create_new: false,
            directory: false,
            execute: false,
        }
    }

    pub open spec fn none() -> OpenOptions {
        OpenOptions {
            read: false,
            write: false,
            append: false,
            truncate: false,
            create: false,
            create_new: false,
            directory: false,
            execute: false,
        }
    }

    pub fn has_directory(&self) -> (r: bool)
        ensures
            r == self.directory,
    {
        self.directory
    }

    /// The options of the retry as a directory: traversal is asked for and
    /// exclusive creation is dropped.
    pub open spec fn dir_retry_spec(self) -> OpenOptions {
        OpenOptions { execute: true, create_new: false, ..self }
    }

    pub fn dir_retry(&self) -> (r: OpenOptions)
        ensures
            r == self.dir_retry_spec(),
    {
        let mut o = *self;
        o.execute = true;
        o.create_new = false;
        o
    }
}

/// The options that the open flags `flags` stand for.
pub open spec fn options_of(flags: u32) -> OpenOptions {
    let acc = flags & 0b11;
    OpenOptions {
        read: acc != O_WRONLY,
        write: acc != O_RDONLY,
        append: flags & O_APPEND != 0,
        truncate: flags & O_TRUNC != 0,
        create: flags & O_CREAT != 0,
        create_new: flags & O_EXEC != 0,
        directory: flags & O_DIRECTORY != 0,
        execute: false,
    }
}

/// Converts open flags to [`OpenOptions`]. The low two bits pick the access
/// mode: read only, write only, or else read and write. Bits that are not
/// known are ignored; `mode` plays no part.
pub fn flags_to_options(flags: i32, mode: u32) -> (r: OpenOptions)
    ensures
        r == options_of(flags as u32),
{
    let flags = flags as u32;
    let mut options = OpenOptions::new();
    let acc = flags & 0b11;
    if acc == O_RDONLY {
        options.read = true;
    } else if acc == O_WRONLY {
        options.write = true;
    } else {
        options.read = true;
        options.write = true;
    }
    if flags & O_APPEND != 0 {
        options.append = true;
    }
    if flags & O_TRUNC != 0 {
        options.truncate = true;
    }
    if flags & O_CREAT != 0 {
        options.create = true;
    }
    if flags & O_EXEC != 0 {
        options.create_new = true;
    }
    if flags & O_DIRECTORY != 0 {
        options.directory = true;
    }
    options
}

/// Flags whose access mode is read only give options without write access.
pub proof fn lemma_read_only_flags_cannot_write(flags: u32)
    requires
        flags & 0b11 == O_RDONLY,
    ensures
        !options_of(flags).write,
        options_of(flags).read,
{
}

} // verus!
