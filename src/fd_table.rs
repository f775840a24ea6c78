use vstd::prelude::*;

use axerrno::LinuxError;

use crate::file::{FileLike, FileLikeV};

verus! {

/// The view of one slot.
pub open spec fn slot_view(o: Option<FileLike>) -> Option<FileLikeV> {
    match o {
        Some(f) => Some(f@),
        None => None,
    }
}

/// Every slot is taken.
pub open spec fn is_full(s: Seq<Option<FileLikeV>>) -> bool {
    forall|i: int| 0 <= i < s.len() ==> #[trigger] s[i] is Some
}

/// `fd` is the smallest free slot.
pub open spec fn is_first_free(s: Seq<Option<FileLikeV>>, fd: int) -> bool {
    &&& 0 <= fd < s.len()
    &&& s[fd] is None
    &&& forall|j: int| 0 <= j < fd ==> #[trigger] s[j] is Some
}

/// `fd` names an open descriptor.
pub open spec fn is_open(s: Seq<Option<FileLikeV>>, fd: int) -> bool {
    0 <= fd < s.len() && s[fd] is Some
}

/// A table of a fixed number of descriptors; a descriptor is the index of
/// its slot.
pub struct FdTable {
    slots: Vec<Option<FileLike>>,
}

impl View for FdTable {
    type V = Seq<Option<FileLikeV>>;

    closed spec fn view(&self) -> Seq<Option<FileLikeV>> {
        self.slots@.map_values(|o: Option<FileLike>| slot_view(o))
    }
}

impl FdTable {
    /// A table of `capacity` free slots.
    pub fn new(capacity: usize) -> (r: FdTable)
        requires
            capacity <= i32::MAX,
        ensures
            r@.len() == capacity,
            forall|i: int| 0 <= i < capacity ==> #[trigger] r@[i] is None,
    {
        let mut slots: Vec<Option<FileLike>> = Vec::new();
        let mut i: usize = 0;
        while i < capacity
            invariant
                i <= capacity,
                slots@.len() == i,
                forall|j: int| 0 <= j < i ==> #[trigger] slots@[j] is None,
            decreases capacity - i,
        {
            slots.push(None);
            i = i + 1;
        }
        FdTable { slots }
    }

    pub closed spec fn capacity_ok(&self) -> bool {
        self.slots@.len() <= i32::MAX
    }

    /// Puts `f` in the smallest free slot and returns its descriptor, or
    /// fails with `EMFILE` where every slot is taken.
    pub fn add(&mut self, f: FileLike) -> (r: Result<i32, LinuxError>)
        requires
            old(self)@.len() <= i32::MAX,
        ensures
            final(self)@.len() == old(self)@.len(),
            is_full(old(self)@) ==> r == Err::<i32, LinuxError>(LinuxError::EMFILE) && final(self)@
                == old(self)@,
            !is_full(old(self)@) ==> r is Ok && is_first_free(old(self)@, r->Ok_0 as int)
                && final(self)@ == old(self)@.update(r->Ok_0 as int, Some(f@)),
    {
        let mut i: usize = 0;
        while i < self.slots.len()
            invariant
                i <= self.slots@.len() <= i32::MAX,
                self.slots@ == old(self).slots@,
                self@ == self.slots@.map_values(|o: Option<FileLike>| slot_view(o)),
                forall|j: int| 0 <= j < i ==> #[trigger] self@[j] is Some,
            decreases self.slots@.len() - i,
        {
            if self.slots[i].is_none() {
                let ghost s0 = self@;
                assert(s0[i as int] is None);
                self.slots.set(i, Some(f));
                proof {
                    assert(self@ =~= s0.update(i as int, Some(f@)));
                }
                return Ok(i as i32);
            }
            i = i + 1;
        }
        Err(LinuxError::EMFILE)
    }

    /// The object of descriptor `fd`, or `EBADF` where it is not open.
    pub fn get(&self, fd: i32) -> (r: Result<&FileLike, LinuxError>)
        ensures
            is_open(self@, fd as int) ==> r is Ok && self@[fd as int] == Some(r->Ok_0@),
            !is_open(self@, fd as int) ==> r == Err::<&FileLike, LinuxError>(LinuxError::EBADF),
    {
        if fd < 0 || fd as usize >= self.slots.len() {
            return Err(LinuxError::EBADF);
        }
        match &self.slots[fd as usize] {
            Some(f) => Ok(f),
            None => Err(LinuxError::EBADF),
        }
    }

    /// Takes the object out of descriptor `fd`, which stays reserved until
    /// `put` fills it again.
    pub fn take(&mut self, fd: i32) -> (r: FileLike)
        requires
            is_open(old(self)@, fd as int),
        ensures
            old(self)@[fd as int] == Some(r@),
            final(self)@ == old(self)@.update(fd as int, None),
    {
        let i = fd as usize;
        let ghost s0 = self@;
        let r = self.slots.remove(i);
        self.slots.insert(i, None);
        proof {
            assert(self@ =~= s0.update(fd as int, None));
        }
        r.unwrap()
    }

    /// Puts `f` in slot `fd`.
    pub fn put(&mut self, fd: i32, f: FileLike)
        requires
            0 <= fd < old(self)@.len(),
        ensures
            final(self)@ == old(self)@.update(fd as int, Some(f@)),
    {
        let ghost s0 = self@;
        self.slots.set(fd as usize, Some(f));
        proof {
            assert(self@ =~= s0.update(fd as int, Some(f@)));
        }
    }

    /// Frees descriptor `fd`, or fails with `EBADF` where it is not open.
    pub fn close(&mut self, fd: i32) -> (r: Result<(), LinuxError>)
        ensures
            is_open(old(self)@, fd as int) ==> r is Ok && final(self)@ == old(self)@.update(
                fd as int,
                None,
            ),
            !is_open(old(self)@, fd as int) ==> r == Err::<(), LinuxError>(LinuxError::EBADF)
                && final(self)@ == old(self)@,
    {
        if fd < 0 || fd as usize >= self.slots.len() || self.slots[fd as usize].is_none() {
            return Err(LinuxError::EBADF);
        }
        self.take(fd);
        Ok(())
    }
}

/// In a full table where `fd` is the one slot that was freed, the next
/// descriptor handed out is `fd`.
pub proof fn lemma_reuse_freed_descriptor(s: Seq<Option<FileLikeV>>, fd: int)
    requires
        is_full(s),
        0 <= fd < s.len(),
    ensures
        !is_full(s.update(fd, None)),
        forall|k: int| is_first_free(s.update(fd, None), k) <==> k == fd,
{
    let t = s.update(fd, None);
    assert(t[fd] is None);
    assert forall|k: int| is_first_free(t, k) implies k == fd by {
        if k < fd {
            assert(t[k] is Some);
        } else if k > fd {
            assert(t[fd] is Some);
        }
    }
}

} // verus!
