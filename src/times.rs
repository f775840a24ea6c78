use vstd::prelude::*;

verus! {

/// User and system times of a process and of its children, as `times`
/// reports them.
#[derive(Debug, Clone, Copy)]
pub struct Tms {
    pub tms_utime: isize,
    pub tms_stime: isize,
    pub tms_cutime: isize,
    pub tms_cstime: isize,
}

impl Tms {
    /// All four times zero.
    pub fn new_empty() -> (r: Tms)
        ensures
            r.tms_utime == 0 && r.tms_stime == 0 && r.tms_cutime == 0 && r.tms_cstime == 0,
    {
        Tms { tms_utime: 0, tms_stime: 0, tms_cutime: 0, tms_cstime: 0 }
    }

    /// The times of `process`, with those of `children` as the children's.
    pub fn create_from_times(process: &Times, children: &Times) -> (r: Tms)
        ensures
            r.tms_utime == process.utime,
            r.tms_stime == process.stime,
            r.tms_cutime == children.utime,
            r.tms_cstime == children.stime,
    {
        Tms {
            tms_utime: process.utime,
            tms_stime: process.stime,
            tms_cutime: children.utime,
            tms_cstime: children.stime,
        }
    }
}

/// Where the time being counted is spent, and since which tick; a start
/// of -1 means that nothing is being counted.
#[derive(Debug, Clone, Copy)]
pub enum TimesType {
    Kernel(isize),
    User(isize),
    Stopped,
}

/// The user and kernel time that a task has used, and the start of the
/// stretch being counted.
#[derive(Debug, Clone, Copy)]
pub struct Times {
    pub start_time: TimesType,
    pub utime: isize,
    pub stime: isize,
}

/// Whether a stretch of time is being counted.
pub open spec fn counting(t: TimesType) -> bool {
    match t {
        TimesType::Kernel(s) => s != -1,
        TimesType::User(s) => s != -1,
        TimesType::Stopped => false,
    }
}

/// `t` with its start set to -1, its side kept.
pub open spec fn waiting(t: TimesType) -> TimesType {
    match t {
        TimesType::Kernel(_) => TimesType::Kernel(-1isize),
        TimesType::User(_) => TimesType::User(-1isize),
        TimesType::Stopped => TimesType::Stopped,
    }
}

impl Times {
    /// No time used, and nothing counted yet.
    pub fn new() -> (r: Times)
        ensures
            r.utime == 0 && r.stime == 0,
            r.start_time == TimesType::User(-1isize),
    {
        Times { start_time: TimesType::User(-1), utime: 0, stime: 0 }
    }

    /// Adds the times of `other` to these.
    pub fn add(&mut self, other: &Times)
        requires
            isize::MIN <= old(self).utime + other.utime <= isize::MAX,
            isize::MIN <= old(self).stime + other.stime <= isize::MAX,
        ensures
            final(self).utime == old(self).utime + other.utime,
            final(self).stime == old(self).stime + other.stime,
            final(self).start_time == old(self).start_time,
    {
        self.utime = self.utime + other.utime;
        self.stime = self.stime + other.stime;
    }

    /// Restarts the stretch being counted at `cur_time`, on the same side.
    pub fn reset_time(&mut self, cur_time: isize)
        ensures
            final(self).utime == old(self).utime,
            final(self).stime == old(self).stime,
            final(self).start_time == match old(self).start_time {
                TimesType::Kernel(_) => TimesType::Kernel(cur_time),
                TimesType::User(_) => TimesType::User(cur_time),
                TimesType::Stopped => TimesType::Stopped,
            },
    {
        match self.start_time {
            TimesType::Kernel(_) => {
                self.start_time = TimesType::Kernel(cur_time);
            },
            TimesType::User(_) => {
                self.start_time = TimesType::User(cur_time);
            },
            TimesType::Stopped => {},
        }
    }

    /// Starts counting at `cur_time`, in the kernel or in user space.
    pub fn set_start_time(&mut self, cur_time: isize, is_kernel: bool)
        ensures
            final(self).utime == old(self).utime,
            final(self).stime == old(self).stime,
            final(self).start_time == if is_kernel {
                TimesType::Kernel(cur_time)
            } else {
                TimesType::User(cur_time)
            },
    {
        if is_kernel {
            self.start_time = TimesType::Kernel(cur_time);
        } else {
            self.start_time = TimesType::User(cur_time);
        }
    }

    /// Ends the stretch being counted at `cur_time`: the kernel or user time
    /// becomes its length, and counting stops. Where nothing is being
    /// counted, nothing changes.
    pub fn update_time(&mut self, cur_time: isize)
        requires
            match old(self).start_time {
                TimesType::Kernel(s) => isize::MIN <= cur_time - s <= isize::MAX,
                TimesType::User(s) => isize::MIN <= cur_time - s <= isize::MAX,
                TimesType::Stopped => true,
            },
        ensures
            !counting(old(self).start_time) ==> *final(self) == *old(self),
            counting(old(self).start_time) ==> final(self).start_time == waiting(
                old(self).start_time,
            ) && match old(self).start_time {
                TimesType::Kernel(s) => final(self).stime == cur_time - s && final(self).utime == old(
                    self,
                ).utime,
                TimesType::User(s) => final(self).utime == cur_time - s && final(self).stime == old(
                    self,
                ).stime,
                TimesType::Stopped => true,
            },
    {
        if !self.is_valid() {
            return;
        }
        match self.start_time {
            TimesType::Kernel(start_time) => {
                self.stime = cur_time - start_time;
            },
            TimesType::User(start_time) => {
                self.utime = cur_time - start_time;
            },
            TimesType::Stopped => {},
        }
        self.change_to_wait();
    }

    /// Stops counting, keeping the side.
    fn change_to_wait(&mut self)
        ensures
            final(self).start_time == waiting(old(self).start_time),
            final(self).utime == old(self).utime,
            final(self).stime == old(self).stime,
    {
        match self.start_time {
            TimesType::Kernel(_) => {
                self.start_time = TimesType::Kernel(-1);
            },
            TimesType::User(_) => {
                self.start_time = TimesType::User(-1);
            },
            TimesType::Stopped => {},
        }
    }

    /// Whether a stretch of time is being counted.
    fn is_valid(&self) -> (r: bool)
        ensures
            r == counting(self.start_time),
    {
        match self.start_time {
            TimesType::Kernel(s) => s != -1,
            TimesType::User(s) => s != -1,
            TimesType::Stopped => false,
        }
    }
}

} // verus!
