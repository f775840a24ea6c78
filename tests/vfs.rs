use axerrno::LinuxError;
use posix_fs::ctypes::{
    stat, timespec, AT_FDCWD, O_APPEND, O_CREAT, O_DIRECTORY, O_EXEC, O_RDWR, O_TRUNC, O_WRONLY,
    UTIME_OMIT,
};
use posix_fs::errno::neg_errno;
use posix_fs::file::PollState;
use posix_fs::vfs::{Vfs, IOCTL_READ_U32};

const CREATE_RW: i32 = (O_CREAT | O_RDWR) as i32;

fn ts(s: i64, n: i64) -> timespec {
    timespec { tv_sec: s, tv_nsec: n }
}

fn fs_with_file(path: &str, bytes: &[u8]) -> Vfs {
    let mut v = Vfs::new(8, "rootfs");
    let fd = v.sys_open(path, CREATE_RW, 0o644).unwrap();
    assert_eq!(v.write(fd, bytes), Ok(bytes.len()));
    v.close(fd).unwrap();
    v
}

#[test]
fn open_creates_and_reads_back() {
    let mut v = Vfs::new(8, "rootfs");
    let fd = v.sys_open("/f", CREATE_RW, 0o644).unwrap();
    assert_eq!(fd, 0);
    assert_eq!(v.write(fd, b"hello"), Ok(5));
    assert_eq!(v.sys_lseek(fd, 0, 0), Ok(0));
    assert_eq!(v.read(fd, 3).unwrap(), b"hel".to_vec());
    assert_eq!(v.read(fd, 10).unwrap(), b"lo".to_vec());
    assert_eq!(v.read(fd, 10).unwrap(), Vec::<u8>::new());
}

#[test]
fn open_missing_file_without_create_fails() {
    let mut v = Vfs::new(8, "rootfs");
    assert_eq!(v.sys_open("/nope", 0, 0), Err(LinuxError::ENOENT));
}

#[test]
fn open_in_missing_directory_fails() {
    let mut v = Vfs::new(8, "rootfs");
    assert_eq!(v.sys_open("/no/f", CREATE_RW, 0), Err(LinuxError::ENOENT));
}

#[test]
fn open_empty_path_fails() {
    let mut v = Vfs::new(8, "rootfs");
    assert_eq!(v.sys_open("", 0, 0), Err(LinuxError::EINVAL));
}

#[test]
fn exclusive_create_of_existing_file_reports_not_a_directory() {
    let mut v = fs_with_file("/f", b"x");
    let flags = (O_CREAT | O_EXEC | O_RDWR) as i32;
    assert_eq!(v.sys_open("/f", flags, 0), Err(LinuxError::ENOTDIR));
}

#[test]
fn exclusive_create_of_new_file_succeeds() {
    let mut v = Vfs::new(8, "rootfs");
    let flags = (O_CREAT | O_EXEC | O_RDWR) as i32;
    assert_eq!(v.sys_open("/f", flags, 0), Ok(0));
}

#[test]
fn o_directory_on_a_file_fails() {
    let mut v = fs_with_file("/f", b"x");
    assert_eq!(v.sys_open("/f", O_DIRECTORY as i32, 0), Err(LinuxError::ENOTDIR));
}

#[test]
fn o_directory_on_a_directory_opens_it() {
    let mut v = Vfs::new(8, "rootfs");
    assert_eq!(v.sys_mkdirat(AT_FDCWD, "/d", 0o755), Ok(0));
    let fd = v.sys_open("/d", O_DIRECTORY as i32, 0).unwrap();
    assert_eq!(v.poll(fd), Ok(PollState { readable: true, writable: false }));
}

#[test]
fn truncate_empties_the_file() {
    let mut v = fs_with_file("/f", b"abc");
    let fd = v.sys_open("/f", (O_RDWR | O_TRUNC) as i32, 0).unwrap();
    assert_eq!(v.sys_fstat(fd).unwrap().st_size, 0);
}

#[test]
fn append_writes_at_the_end() {
    let mut v = fs_with_file("/f", b"abc");
    let fd = v.sys_open("/f", (O_WRONLY | O_APPEND) as i32, 0).unwrap();
    assert_eq!(v.write(fd, b"de"), Ok(2));
    assert_eq!(v.sys_lseek(fd, 0, 1), Ok(5));
    let r = v.sys_open("/f", 0, 0).unwrap();
    assert_eq!(v.read(r, 10).unwrap(), b"abcde".to_vec());
}

#[test]
fn write_past_the_end_fills_with_zeros() {
    let mut v = fs_with_file("/f", b"ab");
    let fd = v.sys_open("/f", O_RDWR as i32, 0).unwrap();
    assert_eq!(v.sys_lseek(fd, 4, 0), Ok(4));
    assert_eq!(v.write(fd, b"z"), Ok(1));
    assert_eq!(v.sys_lseek(fd, 0, 0), Ok(0));
    assert_eq!(v.read(fd, 10).unwrap(), vec![b'a', b'b', 0, 0, b'z']);
}

#[test]
fn write_at_the_top_of_the_address_space_is_too_big() {
    let mut v = fs_with_file("/f", b"ab");
    let fd = v.sys_open("/f", O_RDWR as i32, 0).unwrap();
    assert_eq!(v.sys_lseek(fd, -1, 0), Ok(u64::MAX));
    assert_eq!(v.write(fd, b"z"), Err(LinuxError::EFBIG));
}

#[test]
fn read_only_descriptor_cannot_write() {
    let mut v = fs_with_file("/f", b"abc");
    let fd = v.sys_open("/f", 0, 0).unwrap();
    assert_eq!(v.write(fd, b"x"), Err(LinuxError::EACCES));
    let fd = v.sys_open("/f", (O_APPEND) as i32, 0).unwrap();
    assert_eq!(v.write(fd, b"x"), Err(LinuxError::EACCES));
}

#[test]
fn write_only_descriptor_cannot_read() {
    let mut v = fs_with_file("/f", b"abc");
    let fd = v.sys_open("/f", O_WRONLY as i32, 0).unwrap();
    assert_eq!(v.read(fd, 1), Err(LinuxError::EACCES));
}

#[test]
fn directory_without_o_directory_opens_as_directory() {
    let mut v = Vfs::new(8, "rootfs");
    v.sys_mkdirat(AT_FDCWD, "/d", 0o755).unwrap();
    let fd = v.sys_open("/d", 0, 0).unwrap();
    assert_eq!(v.poll(fd), Ok(PollState { readable: true, writable: false }));
    assert_eq!(v.read(fd, 4), Err(LinuxError::EBADF));
    assert_eq!(v.write(fd, b"x"), Err(LinuxError::EBADF));
    assert_eq!(v.sys_fstat(fd), Err(LinuxError::EBADF));
    let fd = v.sys_open("/d", O_RDWR as i32, 0).unwrap();
    assert_eq!(v.sys_fstat(fd), Err(LinuxError::EBADF));
}

#[test]
fn seek_end_then_current_gives_the_size() {
    let mut v = fs_with_file("/f", b"0123456789");
    let fd = v.sys_open("/f", 0, 0).unwrap();
    let end = v.sys_lseek(fd, 0, 2).unwrap();
    assert_eq!(v.sys_lseek(fd, 0, 1), Ok(end));
    assert_eq!(end as i64, v.sys_fstat(fd).unwrap().st_size);
    assert_eq!(end, 10);
}

#[test]
fn seek_rules() {
    let mut v = fs_with_file("/f", b"0123456789");
    let fd = v.sys_open("/f", 0, 0).unwrap();
    assert_eq!(v.sys_lseek(fd, 3, 0), Ok(3));
    assert_eq!(v.sys_lseek(fd, 2, 1), Ok(5));
    assert_eq!(v.sys_lseek(fd, -10, 1), Err(LinuxError::EINVAL));
    assert_eq!(v.sys_lseek(fd, -4, 2), Ok(6));
    assert_eq!(v.sys_lseek(fd, 0, 3), Err(LinuxError::EINVAL));
    assert_eq!(v.sys_lseek(7, 0, 0), Err(LinuxError::EBADF));
    assert_eq!(v.read(fd, 2).unwrap(), b"67".to_vec());
}

#[test]
fn seek_on_a_directory_is_a_bad_descriptor() {
    let mut v = Vfs::new(8, "rootfs");
    let fd = v.sys_open("/", 0, 0).unwrap();
    assert_eq!(v.sys_lseek(fd, 0, 0), Err(LinuxError::EBADF));
}

#[test]
fn getcwd_fits_exactly_with_its_terminator() {
    let mut v = Vfs::new(8, "rootfs");
    v.sys_mkdirat(AT_FDCWD, "/home", 0).unwrap();
    assert_eq!(v.sys_chdir("/home"), Ok(0));
    let b = v.sys_getcwd(6).unwrap();
    assert_eq!(b, b"/home\0".to_vec());
    assert_eq!(b[5], 0);
    assert_eq!(v.sys_getcwd(5), Err(LinuxError::ERANGE));
}

#[test]
fn chdir_rules() {
    let mut v = fs_with_file("/f", b"");
    assert_eq!(v.sys_chdir("/f"), Err(LinuxError::ENOTDIR));
    assert_eq!(v.sys_chdir("/nope"), Err(LinuxError::ENOENT));
    assert_eq!(v.sys_chdir(""), Err(LinuxError::EINVAL));
    v.sys_mkdirat(AT_FDCWD, "/a", 0).unwrap();
    assert_eq!(v.sys_chdir("a"), Ok(0));
    let fd = v.sys_open("g", CREATE_RW, 0).unwrap();
    assert!(fd >= 0);
    assert!(v.sys_stat("/a/g").is_ok());
    assert_eq!(v.sys_getcwd(100).unwrap(), b"/a\0".to_vec());
}

#[test]
fn utimensat_without_times_sets_now() {
    let mut v = fs_with_file("/f", b"x");
    let fd = v.sys_open("/f", 0, 0).unwrap();
    let now = ts(1000, 500);
    assert_eq!(v.sys_utimensat(fd, None, None, 0, now), Ok(0));
    let st = v.sys_fstat(fd).unwrap();
    assert_eq!(st.st_atime, now);
    assert_eq!(st.st_mtime, now);
}

#[test]
fn utimensat_omit_keeps_one_time() {
    let mut v = fs_with_file("/f", b"x");
    let fd = v.sys_open("/f", 0, 0).unwrap();
    v.sys_utimensat(fd, None, Some((ts(5, 6), ts(7, 8))), 0, ts(1, 1)).unwrap();
    let times = (ts(99, UTIME_OMIT), ts(42, 43));
    assert_eq!(v.sys_utimensat(fd, None, Some(times), 0, ts(1, 1)), Ok(0));
    let st = v.sys_fstat(fd).unwrap();
    assert_eq!(st.st_atime, ts(5, 6));
    assert_eq!(st.st_mtime, ts(42, 43));
}

#[test]
fn utimensat_rejects_bad_descriptors() {
    let mut v = fs_with_file("/f", b"x");
    assert_eq!(v.sys_utimensat(-5, None, None, 0, ts(1, 1)), Err(LinuxError::EBADF));
    assert_eq!(v.sys_utimensat(3, None, None, 0, ts(1, 1)), Err(LinuxError::EBADF));
    let d = v.sys_open("/", 0, 0).unwrap();
    assert_eq!(v.sys_utimensat(d, None, None, 0, ts(1, 1)), Err(LinuxError::EBADF));
}

#[test]
fn utimensat_with_a_path_opens_the_target() {
    let mut v = fs_with_file("/f", b"x");
    assert_eq!(v.sys_utimensat(AT_FDCWD, Some("/f"), None, 0, ts(3, 4)), Ok(0));
    let st = v.sys_fstat(0).unwrap();
    assert_eq!(st.st_atime, ts(3, 4));
    assert_eq!(v.sys_utimensat(AT_FDCWD, Some("/nope"), None, 0, ts(3, 4)), Err(LinuxError::ENOENT));
}

#[test]
fn openat_creates_in_the_directory() {
    let mut v = Vfs::new(8, "rootfs");
    v.sys_mkdirat(AT_FDCWD, "/a", 0o755).unwrap();
    let d = v.sys_open("/a", O_DIRECTORY as i32, 0).unwrap();
    let fd = v.sys_openat(d, "name", O_CREAT as i32, 0o644).unwrap();
    assert!(fd > d);
    let again = v.sys_open("/a/name", 0, 0).unwrap();
    assert_eq!(v.sys_fstat(again).unwrap().st_size, 0);
}

#[test]
fn openat_rules_for_dirfd() {
    let mut v = fs_with_file("/f", b"x");
    let f = v.sys_open("/f", 0, 0).unwrap();
    assert_eq!(v.sys_openat(f, "g", O_CREAT as i32, 0), Err(LinuxError::EBADF));
    assert_eq!(v.sys_openat(-3, "g", O_CREAT as i32, 0), Err(LinuxError::EBADF));
    assert!(v.sys_openat(f, "/f", 0, 0).is_ok());
    assert!(v.sys_openat(AT_FDCWD, "f", 0, 0).is_ok());
}

#[test]
fn descriptor_table_exhaustion_and_reuse() {
    let mut v = Vfs::new(3, "rootfs");
    assert_eq!(v.sys_open("/a", CREATE_RW, 0), Ok(0));
    assert_eq!(v.sys_open("/b", CREATE_RW, 0), Ok(1));
    assert_eq!(v.sys_open("/c", CREATE_RW, 0), Ok(2));
    assert_eq!(v.sys_open("/a", 0, 0), Err(LinuxError::EMFILE));
    assert_eq!(v.close(1), Ok(()));
    assert_eq!(v.sys_open("/a", 0, 0), Ok(1));
    assert_eq!(v.close(1), Ok(()));
    assert_eq!(v.close(1), Err(LinuxError::EBADF));
}

#[test]
fn stat_reports_file_metadata() {
    let v = fs_with_file("/f", &[1u8; 1000]);
    let st = v.sys_stat("/f").unwrap();
    assert_eq!(st.st_mode, 0o100644);
    assert_eq!((st.st_ino, st.st_nlink, st.st_uid, st.st_gid), (1, 1, 1000, 1000));
    assert_eq!((st.st_size, st.st_blocks, st.st_blksize), (1000, 2, 512));
    assert_eq!(st.st_atime, ts(0, 0));
    assert_eq!(v.sys_stat("/"), Err(LinuxError::EISDIR));
    assert_eq!(v.sys_stat("/nope"), Err(LinuxError::ENOENT));
}

#[test]
fn lstat_gives_zeroed_metadata() {
    let v = fs_with_file("/f", b"abc");
    let st: stat = v.sys_lstat("/f").unwrap();
    assert_eq!(st, stat::zeroed());
}

#[test]
fn mkdir_and_unlink_rules() {
    let mut v = fs_with_file("/f", b"x");
    assert_eq!(v.sys_mkdirat(AT_FDCWD, "/f", 0), Err(LinuxError::EEXIST));
    assert_eq!(v.sys_mkdirat(AT_FDCWD, "/x/y", 0), Err(LinuxError::ENOENT));
    assert_eq!(v.sys_mkdirat(AT_FDCWD, "/d", 0), Ok(0));
    let d = v.sys_open("/d", O_DIRECTORY as i32, 0).unwrap();
    assert_eq!(v.sys_mkdirat(d, "e", 0), Ok(0));
    assert!(v.sys_open("/d/e", O_DIRECTORY as i32, 0).is_ok());
    assert_eq!(v.sys_unlinkat(AT_FDCWD, "/d", 0), Err(LinuxError::EISDIR));
    assert_eq!(v.sys_unlinkat(AT_FDCWD, "/f", 0), Ok(0));
    assert_eq!(v.sys_unlinkat(AT_FDCWD, "/f", 0), Err(LinuxError::ENOENT));
    assert_eq!(v.sys_mkdirat(99, "q", 0), Err(LinuxError::EBADF));
}

#[test]
fn rename_replaces_a_file() {
    let mut v = fs_with_file("/a", b"new");
    let fd = v.sys_open("/b", CREATE_RW, 0).unwrap();
    v.close(fd).unwrap();
    assert_eq!(v.sys_rename("/a", "/b"), Ok(0));
    assert_eq!(v.sys_stat("/a"), Err(LinuxError::ENOENT));
    assert_eq!(v.sys_stat("/b").unwrap().st_size, 3);
}

#[test]
fn rename_rules() {
    let mut v = fs_with_file("/a", b"x");
    assert_eq!(v.sys_rename("/nope", "/b"), Err(LinuxError::ENOENT));
    assert_eq!(v.sys_rename("/a", "/a"), Ok(0));
    v.sys_mkdirat(AT_FDCWD, "/d", 0).unwrap();
    assert_eq!(v.sys_rename("/a", "/d"), Err(LinuxError::EISDIR));
    assert_eq!(v.sys_rename("/a", "/d/a"), Ok(0));
    assert_eq!(v.sys_rename("/d", "/e"), Err(LinuxError::ENOTEMPTY));
    assert_eq!(v.sys_rename("/d/a", "/q/a"), Err(LinuxError::ENOENT));
    assert_eq!(v.sys_rename("", "/x"), Err(LinuxError::EINVAL));
}

#[test]
fn mount_and_unmount() {
    let mut v = Vfs::new(4, "rootfs");
    assert_eq!(v.mount("rootfs", "/mnt", "ext4", 0), 0);
    assert_eq!(v.mount("rootfs", "/mnt", "ext4", 0), -1);
    assert_eq!(v.mount("otherfs", "/x", "ext4", 0), -1);
    assert_eq!(v.mount("rootfs", "", "ext4", 0), -1);
    assert_eq!(v.unmount("/mnt"), 0);
    assert_eq!(v.mount("rootfs", "./mnt", "ext4", 0), 0);
    assert_eq!(v.unmount(""), -1);
    assert_eq!(v.unmount("/nothing"), 0);
}

#[test]
fn ioctl_reads_a_little_endian_number() {
    let mut v = fs_with_file("/f", &[1, 2, 0, 0, 9]);
    let fd = v.sys_open("/f", 0, 0).unwrap();
    assert_eq!(v.sys_ioctl(fd, 0x1234), Err(LinuxError::EINVAL));
    assert_eq!(v.sys_ioctl(fd, IOCTL_READ_U32), Ok(0x0201));
    assert_eq!(v.sys_ioctl(fd, IOCTL_READ_U32), Err(LinuxError::EINVAL));
    let d = v.sys_open("/", 0, 0).unwrap();
    assert_eq!(v.sys_ioctl(d, IOCTL_READ_U32), Err(LinuxError::EBADF));
}

#[test]
fn read_file_reads_without_moving() {
    let mut v = fs_with_file("/f", b"abcdef");
    let fd = v.sys_open("/f", 0, 0).unwrap();
    assert_eq!(v.read_file(fd, 2, 3).unwrap(), b"cde".to_vec());
    assert_eq!(v.read_file(fd, 4, 10).unwrap(), b"ef".to_vec());
    assert_eq!(v.read_file(fd, 6, 1), Err(LinuxError::EINVAL));
    assert_eq!(v.read(fd, 1).unwrap(), b"a".to_vec());
    let d = v.sys_open("/", 0, 0).unwrap();
    assert_eq!(v.read_file(d, 0, 1), Err(LinuxError::EBADF));
}

#[test]
fn poll_and_nonblocking() {
    let mut v = fs_with_file("/f", b"");
    let fd = v.sys_open("/f", 0, 0).unwrap();
    assert_eq!(v.poll(fd), Ok(PollState { readable: true, writable: true }));
    assert_eq!(v.set_nonblocking(fd, true), Ok(()));
    assert_eq!(v.set_nonblocking(6, true), Err(LinuxError::EBADF));
    assert_eq!(v.poll(6), Err(LinuxError::EBADF));
}

#[test]
fn errors_become_negative_errno() {
    assert_eq!(neg_errno(LinuxError::EBADF), -9);
    assert_eq!(neg_errno(LinuxError::EMFILE), -24);
    assert_eq!(neg_errno(LinuxError::ERANGE), -34);
}
