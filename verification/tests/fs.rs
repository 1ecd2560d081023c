use modgraph::fs::{Entry, EntryKind, FileSystem};

#[test]
fn empty_file_system_knows_no_path() {
    let fs = FileSystem::new();
    assert!(!fs.contains("/a"));
    assert!(!fs.is_file("/a"));
    assert!(!fs.is_directory("/a"));
    assert_eq!(fs.read_to_string("/a"), None);
    assert_eq!(fs.canonicalize("/a"), None);
}

#[test]
fn files_and_directories_are_told_apart() {
    let mut fs = FileSystem::new();
    fs.add_file("/a.js", "text");
    fs.add_directory("/d");
    assert!(fs.contains("/a.js") && fs.contains("/d"));
    assert!(fs.is_file("/a.js") && !fs.is_directory("/a.js"));
    assert!(fs.is_directory("/d") && !fs.is_file("/d"));
    assert_eq!(fs.read_to_string("/a.js"), Some("text".to_string()));
    assert_eq!(fs.read_to_string("/d"), None);
    assert_eq!(fs.canonicalize("/a.js"), Some("/a.js".to_string()));
    assert_eq!(fs.canonicalize("/d"), Some("/d".to_string()));
}

#[test]
fn link_takes_kind_content_and_real_path_of_its_target() {
    let mut fs = FileSystem::new();
    fs.add_file("/a.js", "text");
    assert!(fs.add_link("/b.js", "/a.js"));
    assert!(fs.add_link("/c.js", "/b.js"));
    assert!(!fs.add_link("/d.js", "/none.js"));
    assert!(fs.is_file("/c.js"));
    assert_eq!(fs.read_to_string("/c.js"), Some("text".to_string()));
    assert_eq!(fs.canonicalize("/c.js"), Some("/a.js".to_string()));
    assert!(!fs.contains("/d.js"));
    assert_eq!(
        fs.entries[2],
        Entry {
            path: "/c.js".to_string(),
            kind: EntryKind::File { content: "text".to_string() },
            real_path: "/a.js".to_string(),
        }
    );
}

#[test]
fn last_entry_for_a_path_stands() {
    let mut fs = FileSystem::new();
    fs.add_file("/a", "one");
    fs.add_file("/a", "two");
    assert_eq!(fs.read_to_string("/a"), Some("two".to_string()));
    fs.add_directory("/a");
    assert!(fs.is_directory("/a"));
    assert_eq!(fs.entries.len(), 3);
}

#[test]
fn paths_are_compared_as_written() {
    let mut fs = FileSystem::new();
    fs.add_file("/a/b.js", "");
    assert!(!fs.is_file("/a/./b.js"));
    assert!(!fs.is_file("/a/b.js/"));
}
