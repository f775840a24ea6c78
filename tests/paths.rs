use posix_fs::path::{join_path, parent_path, starts_with_slash, to_root_path};
use axerrno::LinuxError;

#[test]
fn absolute_paths_are_kept() {
    assert_eq!(to_root_path("/home", "/mnt/x").unwrap(), "/mnt/x");
}

#[test]
fn relative_paths_join_the_working_directory() {
    assert_eq!(to_root_path("/home", "mnt").unwrap(), "/home/mnt");
    assert_eq!(to_root_path("/", "mnt").unwrap(), "/mnt");
    assert_eq!(to_root_path("/home", "./mnt").unwrap(), "/home/mnt");
}

#[test]
fn dot_segments_are_not_collapsed() {
    assert_eq!(to_root_path("/home", "../x").unwrap(), "/home/../x");
}

#[test]
fn empty_path_is_refused() {
    assert_eq!(to_root_path("/home", ""), Err(LinuxError::EINVAL));
}

#[test]
fn join_and_parent() {
    assert_eq!(join_path("/a/", "b"), "/a/b");
    assert_eq!(join_path("/a", "b"), "/a/b");
    assert_eq!(parent_path("/a/b"), "/a");
    assert_eq!(parent_path("/a"), "/");
    assert_eq!(parent_path("a"), "");
    assert!(starts_with_slash("/x"));
    assert!(!starts_with_slash("x"));
    assert!(!starts_with_slash(""));
}
