use modgraph::path::{
    has_prefix, join_paths, normalize_path, parent_directory, split_path, starts_at_root,
};

#[test]
fn split_cuts_at_every_separator() {
    assert_eq!(split_path("/a//b/"), vec!["", "a", "", "b", ""]);
    assert_eq!(split_path("a"), vec!["a"]);
    assert_eq!(split_path(""), vec![""]);
}

#[test]
fn normalize_removes_dot_and_empty_components() {
    assert_eq!(normalize_path("/a/./b//c/"), "/a/b/c");
    assert_eq!(normalize_path("/"), "/");
    assert_eq!(normalize_path("a/./b"), "a/b");
}

#[test]
fn normalize_follows_dot_dot() {
    assert_eq!(normalize_path("/a/b/../c"), "/a/c");
    assert_eq!(normalize_path("/a/../../b"), "/b");
    assert_eq!(normalize_path("/.."), "/");
    assert_eq!(normalize_path("a/../../b"), "../b");
    assert_eq!(normalize_path("../../a"), "../../a");
    assert_eq!(normalize_path("a/.."), "");
}

#[test]
fn normalize_keeps_names_with_dots() {
    assert_eq!(normalize_path("/a/.b/c..d/..."), "/a/.b/c..d/...");
}

#[test]
fn parent_directory_is_what_precedes_the_last_separator() {
    assert_eq!(parent_directory("/proj/src/a.js"), "/proj/src");
    assert_eq!(parent_directory("/a.js"), "/");
    assert_eq!(parent_directory("a.js"), "");
    assert_eq!(parent_directory("/"), "/");
    assert_eq!(parent_directory(""), "");
    assert_eq!(parent_directory("/a/b/"), "/a/b");
}

#[test]
fn join_puts_a_separator_between() {
    assert_eq!(join_paths("/a", "b.js"), "/a/b.js");
    assert_eq!(join_paths("", "b.js"), "b.js");
    assert_eq!(join_paths("/", "b"), "//b");
}

#[test]
fn prefix_and_root_tests() {
    assert!(has_prefix("./a", "./"));
    assert!(!has_prefix(".a", "./"));
    assert!(!has_prefix(".", "./"));
    assert!(has_prefix("abc", ""));
    assert!(starts_at_root("/a"));
    assert!(!starts_at_root("a/"));
    assert!(!starts_at_root(""));
}

#[test]
fn paths_with_wide_characters_are_cut_by_character() {
    assert_eq!(normalize_path("/é/./ü/../ö.js"), "/é/ö.js");
    assert_eq!(parent_directory("/é/ö.js"), "/é");
}
