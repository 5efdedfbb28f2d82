use sharun::error::LaunchError;
use sharun::path::{basename, dirname, is_file, join_path, realpath, resolution};

#[test]
fn basename_takes_last_segment() {
    assert_eq!(basename("/usr/bin/app"), "app");
    assert_eq!(basename("app"), "app");
    assert_eq!(basename("./rel/tool"), "tool");
}

#[test]
fn basename_of_path_ending_in_slash_is_empty() {
    assert_eq!(basename("a/b/"), "");
    assert_eq!(basename("/"), "");
}

#[test]
fn basename_of_empty_path_is_empty() {
    assert_eq!(basename(""), "");
}

#[test]
fn dirname_of_absolute_path() {
    assert_eq!(dirname("/usr/bin/app"), "/usr/bin");
    assert_eq!(dirname("/a/b/"), "/a/b");
}

#[test]
fn dirname_of_file_in_root_is_root() {
    assert_eq!(dirname("/x"), "/");
    assert_eq!(dirname("/"), "/");
}

#[test]
fn dirname_of_relative_looking_path_gets_dot() {
    assert_eq!(dirname("a/b/c"), "./a/b");
    assert_eq!(dirname("bin/app"), "./bin");
}

#[test]
fn dirname_of_dot_and_tilde_paths_keeps_prefix() {
    assert_eq!(dirname("./a/b"), "./a");
    assert_eq!(dirname("../x"), "..");
    assert_eq!(dirname("~/x"), "~");
}

#[test]
fn dirname_of_single_segment_is_empty() {
    assert_eq!(dirname("app"), "");
    assert_eq!(dirname(""), "");
}

#[test]
fn dirname_and_basename_rejoin_absolute_path() {
    let path = "/opt/bundle/shared/bin/tool";
    assert_eq!(join_path(&dirname(path), &basename(path)), path);
}

#[test]
fn join_path_puts_a_slash_between() {
    assert_eq!(join_path("/opt/app/shared/lib", "ld.so"), "/opt/app/shared/lib/ld.so");
    assert_eq!(join_path("", "x"), "/x");
}

#[test]
fn realpath_of_missing_path_is_resolution_error() {
    assert_eq!(realpath("/definitely/not/here/at/all"), Err(LaunchError::Resolution));
}

#[test]
fn realpath_resolves_relative_components() {
    assert_eq!(realpath("/"), Ok("/".to_string()));
    assert_eq!(realpath("/proc/../"), Ok("/".to_string()));
}

#[test]
fn is_file_says_no_for_directory_and_missing_path() {
    assert!(!is_file("/"));
    assert!(!is_file("/definitely/not/here/at/all"));
}

#[test]
fn is_file_says_yes_for_regular_file() {
    assert!(is_file("/proc/version"));
}

#[test]
fn resolution_is_found_path_or_error() {
    assert_eq!(resolution(Some("/opt/bundle".to_string())), Ok("/opt/bundle".to_string()));
    assert_eq!(resolution(None), Err(LaunchError::Resolution));
}
