use posix_fs::ctypes::{O_APPEND, O_CREAT, O_DIRECTORY, O_EXEC, O_RDWR, O_TRUNC, O_WRONLY};
use posix_fs::options::{flags_to_options, OpenOptions};

#[test]
fn read_only_flags_give_read_alone() {
    let o = flags_to_options(0, 0o644);
    assert!(o.read);
    assert!(!o.write);
    assert!(!o.append && !o.truncate && !o.create && !o.create_new && !o.directory);
}

#[test]
fn write_only_flags_give_write_alone() {
    let o = flags_to_options(O_WRONLY as i32, 0);
    assert!(!o.read);
    assert!(o.write);
}

#[test]
fn read_write_and_unknown_access_modes_give_both() {
    let o = flags_to_options(O_RDWR as i32, 0);
    assert!(o.read && o.write);
    let o = flags_to_options(3, 0);
    assert!(o.read && o.write);
}

#[test]
fn each_flag_sets_its_option() {
    let flags = (O_WRONLY | O_APPEND | O_TRUNC | O_CREAT | O_EXEC | O_DIRECTORY) as i32;
    let o = flags_to_options(flags, 0);
    assert_eq!(
        o,
        OpenOptions {
            read: false,
            write: true,
            append: true,
            truncate: true,
            create: true,
            create_new: true,
            directory: true,
            execute: false,
        }
    );
}

#[test]
fn unknown_bits_are_ignored() {
    let o = flags_to_options(0o4000 | 0o40000, 0);
    assert_eq!(o, flags_to_options(0, 0));
}

#[test]
fn directory_retry_sets_execute_and_clears_create_new() {
    let o = flags_to_options((O_CREAT | O_EXEC) as i32, 0);
    let r = o.dir_retry();
    assert!(r.execute);
    assert!(!r.create_new);
    assert!(r.create && r.read);
}
