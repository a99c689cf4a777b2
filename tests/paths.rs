use popolion::resolve::{entry_names_file, resolve, EntryError, ExtractionOptions};
use popolion::sanitize::{sanitize, sanitize_segment};

#[test]
fn plain_path_keeps_its_structure() {
    assert_eq!(sanitize("dir/sub/file.txt"), vec!["dir", "sub", "file.txt"]);
}

#[test]
fn parent_component_is_neutralized() {
    let s = sanitize("a/../b");
    assert_eq!(s, vec!["a", "_", "b"]);
    assert!(s.iter().all(|c| c != ".."));
}

#[test]
fn leading_parent_components_cannot_escape() {
    let s = sanitize("../../etc/passwd");
    assert_eq!(s, vec!["_", "_", "etc", "passwd"]);
}

#[test]
fn empty_and_dot_components_are_dropped() {
    assert_eq!(sanitize("/./x//y/"), vec!["x", "y"]);
}

#[test]
fn illegal_characters_are_stripped() {
    assert_eq!(sanitize("a:b/c*d?.txt"), vec!["ab", "cd.txt"]);
}

#[test]
fn reserved_device_name_is_replaced() {
    assert_eq!(sanitize_segment("con.txt"), "_");
    assert_eq!(sanitize_segment("trailing. "), "trailing");
}

#[test]
fn fallback_segment_is_kept() {
    assert_eq!(sanitize_segment("_"), "_");
}

#[test]
fn sanitizing_twice_changes_nothing() {
    for p in ["a/../b", "x:y/con/..../z. ", "dir/c.txt", "", "///", "<>|/\u{1}q"] {
        let once = sanitize(p);
        let joined = once.join("/");
        assert_eq!(sanitize(&joined), once);
        assert_eq!(sanitize(&joined).join("/"), joined);
    }
}

#[test]
fn entry_path_naming_file() {
    assert!(entry_names_file("a/b.txt"));
    assert!(!entry_names_file(""));
    assert!(!entry_names_file("dir/"));
    assert!(!entry_names_file("dir/."));
}

#[test]
fn resolve_with_destination_and_subdir() {
    let mut o = ExtractionOptions::new();
    o.destination_root = Some("out".to_string());
    o.per_archive_subdir = true;
    let t = resolve("data", "dir/../b.bin", &o).ok().unwrap();
    assert_eq!(t.root, Some("out".to_string()));
    assert_eq!(t.subdir, Some("data".to_string()));
    assert_eq!(t.segments, vec!["dir", "_", "b.bin"]);
}

#[test]
fn resolve_without_destination() {
    let o = ExtractionOptions::new();
    let t = resolve("data", "a.txt", &o).ok().unwrap();
    assert_eq!(t.root, None);
    assert_eq!(t.subdir, None);
    assert_eq!(t.segments, vec!["a.txt"]);
}

#[test]
fn resolve_refuses_directory_only_path() {
    let o = ExtractionOptions::new();
    assert!(matches!(resolve("data", "dir/", &o), Err(EntryError::InvalidEntryPath)));
    assert!(matches!(resolve("data", "", &o), Err(EntryError::InvalidEntryPath)));
}
