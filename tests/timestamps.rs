use posix_fs::ctypes::{timespec, UTIME_NOW, UTIME_OMIT};
use posix_fs::times::{Times, TimesType, Tms};

fn ts(s: i64, n: i64) -> timespec {
    timespec { tv_sec: s, tv_nsec: n }
}

#[test]
fn utime_now_takes_the_current_time() {
    let mut t = ts(1, 2);
    t.set_as_utime(ts(0, UTIME_NOW), ts(100, 5));
    assert_eq!(t, ts(100, 5));
}

#[test]
fn utime_omit_keeps_the_time() {
    let mut t = ts(1, 2);
    t.set_as_utime(ts(50, UTIME_OMIT), ts(100, 5));
    assert_eq!(t, ts(1, 2));
}

#[test]
fn utime_literal_is_taken_as_is() {
    let mut t = ts(1, 2);
    t.set_as_utime(ts(7, 8), ts(100, 5));
    assert_eq!(t, ts(7, 8));
}

#[test]
fn tms_new_empty_is_zero() {
    let t = Tms::new_empty();
    assert_eq!((t.tms_utime, t.tms_stime, t.tms_cutime, t.tms_cstime), (0, 0, 0, 0));
}

#[test]
fn tms_from_times_copies_both() {
    let mut p = Times::new();
    p.utime = 3;
    p.stime = 4;
    let mut c = Times::new();
    c.utime = 5;
    c.stime = 6;
    let t = Tms::create_from_times(&p, &c);
    assert_eq!((t.tms_utime, t.tms_stime, t.tms_cutime, t.tms_cstime), (3, 4, 5, 6));
}

#[test]
fn times_count_user_then_kernel() {
    let mut t = Times::new();
    t.update_time(10);
    assert_eq!((t.utime, t.stime), (0, 0));
    t.set_start_time(10, false);
    t.update_time(25);
    assert_eq!((t.utime, t.stime), (15, 0));
    assert!(matches!(t.start_time, TimesType::User(-1)));
    t.set_start_time(30, true);
    t.update_time(34);
    assert_eq!((t.utime, t.stime), (15, 4));
    assert!(matches!(t.start_time, TimesType::Kernel(-1)));
    t.update_time(50);
    assert_eq!((t.utime, t.stime), (15, 4));
}

#[test]
fn times_reset_keeps_the_side() {
    let mut t = Times::new();
    t.set_start_time(5, true);
    t.reset_time(9);
    assert!(matches!(t.start_time, TimesType::Kernel(9)));
    t.update_time(12);
    assert_eq!(t.stime, 3);
}

#[test]
fn times_add_sums_both() {
    let mut a = Times::new();
    a.utime = 1;
    a.stime = 2;
    let mut b = Times::new();
    b.utime = 10;
    b.stime = 20;
    a.add(&b);
    assert_eq!((a.utime, a.stime), (11, 22));
}
