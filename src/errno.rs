use vstd::prelude::*;

verus! {

/// Linux error codes, as `axerrno` defines them.
#[verifier::external_type_specification]
pub struct ExLinuxError(axerrno::LinuxError);

/// The errno number of each error this library reports.
pub open spec fn errno_of(e: axerrno::LinuxError) -> i32 {
    match e {
        axerrno::LinuxError::EPERM => 1,
        axerrno::LinuxError::ENOENT => 2,
        axerrno::LinuxError::EBADF => 9,
        axerrno::LinuxError::EACCES => 13,
        axerrno::LinuxError::EFAULT => 14,
        axerrno::LinuxError::EEXIST => 17,
        axerrno::LinuxError::ENOTDIR => 20,
        axerrno::LinuxError::EISDIR => 21,
        axerrno::LinuxError::EINVAL => 22,
        axerrno::LinuxError::EMFILE => 24,
        axerrno::LinuxError::EFBIG => 27,
        axerrno::LinuxError::ERANGE => 34,
        axerrno::LinuxError::ENOTEMPTY => 39,
        _ => 0,
    }
}

/// Relies on `LinuxError::code`, which returns the enum's discriminant:
/// the errno number of `errno.h`.
pub assume_specification[ axerrno::LinuxError::code ](e: axerrno::LinuxError) -> (r: i32)
    ensures
        errno_of(e) != 0 ==> r == errno_of(e),
        r > 0,
;

/// The value that a call returns for the error `e`: its errno number,
/// negated.
pub fn neg_errno(e: axerrno::LinuxError) -> (r: i32)
    ensures
        errno_of(e) != 0 ==> r == -errno_of(e),
        r < 0,
{
    -e.code()
}

} // verus!
