use file_organizer::stats::{aggregate_stats, directory_stats, files_by_category};
use file_organizer::types::WalkEntry;
use file_organizer::walker::bounded_walk;

fn walk_entry(name: &str, depth: usize, is_dir: bool, size: u64) -> WalkEntry {
    WalkEntry {
        name: name.to_string(),
        path: format!("/root/{}", name),
        depth,
        is_dir,
        size: Some(size),
        modified: None,
    }
}

#[test]
fn walk_respects_depth_cap() {
    let stream = vec![
        walk_entry("top.txt", 1, false, 1),
        walk_entry("deep", 1, true, 0),
        walk_entry("below.txt", 3, false, 1),
        walk_entry("way_below.txt", 4, false, 1),
    ];
    let out = bounded_walk(stream, 2, 100);
    let names: Vec<&str> = out.iter().map(|e| e.name.as_str()).collect();
    assert_eq!(names, vec!["top.txt"]);
}

#[test]
fn walk_stops_at_entry_cap() {
    let mut stream = Vec::new();
    for i in 0..10 {
        stream.push(walk_entry(&format!("f{}.txt", i), 1, false, 1));
    }
    let out = bounded_walk(stream, 5, 4);
    assert_eq!(out.len(), 4);
    assert_eq!(out[0].name, "f0.txt");
    assert_eq!(out[3].name, "f3.txt");
}

#[test]
fn walk_prunes_hidden_subtrees() {
    let stream = vec![
        walk_entry(".cache", 1, true, 0),
        walk_entry("inside.txt", 2, false, 1),
        walk_entry("deeper.txt", 3, false, 1),
        walk_entry("after.txt", 1, false, 1),
        walk_entry(".dotfile.txt", 1, false, 1),
    ];
    let out = bounded_walk(stream, 10, 100);
    let names: Vec<&str> = out.iter().map(|e| e.name.as_str()).collect();
    assert_eq!(names, vec!["after.txt"]);
}

#[test]
fn stats_totals_partition_by_category() {
    let files = vec![
        walk_entry("a.jpg", 1, false, 100),
        walk_entry("b.JPG", 1, false, 50),
        walk_entry("c.mp4", 1, false, 300),
        walk_entry("d.unknown", 1, false, 7),
    ];
    let r = aggregate_stats(&files);
    assert_eq!(r.total_files, 4);
    assert_eq!(r.total_size, 457);
    let sum_sizes: u64 = r.categories.iter().map(|c| c.size_bytes).sum();
    let sum_counts: usize = r.categories.iter().map(|c| c.count).sum();
    assert_eq!(sum_sizes, r.total_size);
    assert_eq!(sum_counts, r.total_files);
    assert_eq!(r.categories.len(), 3);
    assert_eq!(r.categories[0].category, "Vídeos");
    assert_eq!(r.categories[0].size_bytes, 300);
    assert_eq!(r.categories[1].category, "Imagens");
    assert_eq!(r.categories[1].count, 2);
    assert_eq!(r.categories[1].size_bytes, 150);
    assert_eq!(r.categories[2].category, "Outros");
    assert_eq!(r.categories[2].size_bytes, 7);
}

#[test]
fn largest_files_capped_and_strictly_sorted() {
    let mut files = Vec::new();
    for i in 0..20u64 {
        files.push(walk_entry(&format!("f{}.txt", i), 1, false, i * 10));
    }
    let r = aggregate_stats(&files);
    assert_eq!(r.largest_files.len(), 15);
    assert_eq!(r.largest_files[0].size_bytes, 190);
    for w in r.largest_files.windows(2) {
        assert!(w[0].size_bytes > w[1].size_bytes);
    }
    assert_eq!(r.largest_files[14].size_bytes, 50);
}

#[test]
fn largest_files_short_scan() {
    let files = vec![
        walk_entry("small.txt", 1, false, 1),
        walk_entry("big.txt", 1, false, 9),
        walk_entry("mid.txt", 1, false, 5),
    ];
    let r = aggregate_stats(&files);
    assert_eq!(r.largest_files.len(), 3);
    assert_eq!(r.largest_files[0].filename, "big.txt");
    assert_eq!(r.largest_files[1].filename, "mid.txt");
    assert_eq!(r.largest_files[2].filename, "small.txt");
}

#[test]
fn directory_stats_skips_hidden_and_dirs() {
    let stream = vec![
        walk_entry("keep.txt", 1, false, 10),
        walk_entry("folder", 1, true, 0),
        walk_entry(".secret.txt", 1, false, 99),
    ];
    let r = directory_stats(stream);
    assert_eq!(r.total_files, 1);
    assert_eq!(r.total_size, 10);
}

#[test]
fn files_by_category_filters_and_caps() {
    let stream = vec![
        walk_entry("a.jpg", 1, false, 1),
        walk_entry("b.txt", 1, false, 2),
        walk_entry("c.jpeg", 1, false, 3),
        walk_entry("d", 1, true, 0),
    ];
    let r = files_by_category(stream, "Imagens");
    let names: Vec<&str> = r.iter().map(|f| f.filename.as_str()).collect();
    assert_eq!(names, vec!["a.jpg", "c.jpeg"]);
    assert_eq!(r[1].size_bytes, 3);
    assert_eq!(r[1].extension, "jpeg");
}
