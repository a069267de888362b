use file_organizer::listing::{build_listing, build_folder_nodes, has_visible_subdir};
use file_organizer::types::{RawDirEntry, RawFolderEntry};

fn entry(name: &str, is_dir: bool, size: u64) -> RawDirEntry {
    RawDirEntry {
        name: name.to_string(),
        path: format!("/base/{}", name),
        is_dir,
        size: Some(size),
        modified: None,
    }
}

fn folder(name: &str, is_dir: bool, has_children: bool) -> RawFolderEntry {
    RawFolderEntry {
        name: name.to_string(),
        path: format!("/base/{}", name),
        is_dir,
        has_children,
    }
}

#[test]
fn listing_counts_non_hidden_entries() {
    let raw = vec![
        entry("b.txt", false, 10),
        entry(".hidden", false, 5),
        entry("Docs", true, 0),
        entry(".git", true, 0),
        entry("a.txt", false, 20),
    ];
    let r = build_listing("/base".to_string(), raw);
    assert_eq!(r.path, "/base");
    assert_eq!(r.files.len(), 3);
    assert_eq!(r.total_files + r.total_folders, 3);
    assert_eq!(r.total_files, 2);
    assert_eq!(r.total_folders, 1);
}

#[test]
fn listing_sorts_dirs_first_then_case_insensitive() {
    let raw = vec![
        entry("zeta.txt", false, 1),
        entry("Alpha.txt", false, 2),
        entry("beta", true, 0),
        entry("ALow", true, 0),
    ];
    let r = build_listing("/base".to_string(), raw);
    let names: Vec<&str> = r.files.iter().map(|f| f.filename.as_str()).collect();
    assert_eq!(names, vec!["ALow", "beta", "Alpha.txt", "zeta.txt"]);
    for (i, f) in r.files.iter().enumerate() {
        assert_eq!(f.index, i);
    }
}

#[test]
fn listing_metadata_fallbacks() {
    let raw = vec![RawDirEntry {
        name: "odd.bin".to_string(),
        path: "/base/odd.bin".to_string(),
        is_dir: false,
        size: None,
        modified: None,
    }];
    let r = build_listing("/base".to_string(), raw);
    assert_eq!(r.files.len(), 1);
    assert_eq!(r.files[0].size_bytes, 0);
    assert_eq!(r.files[0].modified, "-");
    assert_eq!(r.files[0].extension, "bin");
}

#[test]
fn listing_formats_readable_timestamps() {
    let raw = vec![RawDirEntry {
        name: "dated.txt".to_string(),
        path: "/base/dated.txt".to_string(),
        is_dir: false,
        size: Some(4),
        modified: Some(0),
    }];
    let r = build_listing("/base".to_string(), raw);
    assert_eq!(r.files.len(), 1);
    let label = &r.files[0].modified;
    assert_ne!(label, "-");
    assert!(label.len() >= 16);
    assert!(label.contains('/'));
    assert!(label.contains(':'));
}

#[test]
fn listing_unrenderable_timestamp_keeps_placeholder() {
    let raw = vec![RawDirEntry {
        name: "weird.txt".to_string(),
        path: "/base/weird.txt".to_string(),
        is_dir: false,
        size: Some(1),
        modified: Some(5_000_000_000_000_000),
    }];
    let r = build_listing("/base".to_string(), raw);
    assert_eq!(r.files[0].modified, "-");
}

#[test]
fn listing_order_folds_case_and_accents() {
    let raw = vec![
        entry("Zeta.txt", false, 1),
        entry("alpha.txt", false, 1),
        entry("\u{c9}poca.txt", false, 1),
        entry("\u{e9}clair.txt", false, 1),
    ];
    let r = build_listing("/base".to_string(), raw);
    let names: Vec<&str> = r.files.iter().map(|f| f.filename.as_str()).collect();
    assert_eq!(names, vec!["alpha.txt", "Zeta.txt", "\u{e9}clair.txt", "\u{c9}poca.txt"]);
}

#[test]
fn folder_nodes_keep_visible_directories_sorted() {
    let raw = vec![
        folder("zoo", true, false),
        folder("file.txt", false, false),
        folder(".git", true, true),
        folder("Art", true, true),
    ];
    let nodes = build_folder_nodes(raw);
    let names: Vec<&str> = nodes.iter().map(|n| n.name.as_str()).collect();
    assert_eq!(names, vec!["Art", "zoo"]);
    assert!(nodes[0].has_children);
    assert!(!nodes[1].has_children);
}

#[test]
fn visible_subdir_probe() {
    let children = vec![entry(".hg", true, 0), entry("data.txt", false, 1)];
    assert!(!has_visible_subdir(&children));
    let children = vec![entry("sub", true, 0)];
    assert!(has_visible_subdir(&children));
    assert!(!has_visible_subdir(&Vec::new()));
}
