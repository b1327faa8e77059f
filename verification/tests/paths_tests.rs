use agentrec::loglock::lock_path;
use agentrec::paths::{components_of, join, paths_equal, starts_with_path};

#[test]
fn components_drop_empty_and_dot_segments() {
    assert_eq!(components_of("/a//b/./c/"), vec!["a", "b", "c"]);
    assert_eq!(components_of("../x"), vec!["..", "x"]);
    assert!(components_of("/").is_empty());
}

#[test]
fn join_follows_path_join() {
    assert_eq!(join("/a", "b"), "/a/b");
    assert_eq!(join("/a/", "b"), "/a/b");
    assert_eq!(join("/a", "/b"), "/b");
    assert_eq!(join("", "b"), "b");
}

#[test]
fn starts_with_compares_components() {
    assert!(starts_with_path("/tmp/x", "/tmp"));
    assert!(starts_with_path("/tmp", "/tmp/"));
    assert!(!starts_with_path("/tmpx", "/tmp"));
    assert!(!starts_with_path("tmp/x", "/tmp"));
}

#[test]
fn log_lock_lives_under_the_store() {
    assert_eq!(lock_path("/repo"), "/repo/.agentrec/log.lock");
}

#[test]
fn starts_with_counts_the_root_and_a_leading_dot() {
    assert!(starts_with_path("/a/b", ""));
    assert!(starts_with_path("a/b", ""));
    assert!(!starts_with_path("./a", "a"));
    assert!(starts_with_path("./a/b", "./a"));
    assert!(starts_with_path("./a", "."));
    assert!(!starts_with_path("a", "/"));
    assert!(starts_with_path("/a", "/"));
}

#[test]
fn paths_are_equal_by_their_components() {
    assert!(paths_equal("/a//b/", "/a/b"));
    assert!(paths_equal("a/./b", "a/b"));
    assert!(!paths_equal("./a", "a"));
    assert!(!paths_equal("/a", "a"));
    assert!(paths_equal("", ""));
}
