use ken_core::profile_scan::{scan_stats_from, WalkEntry, MAX_LARGEST_DIRS, MAX_SCAN_FILES};

fn dir(p: &str) -> WalkEntry {
    WalkEntry { rel_path: p.to_string(), is_dir: true, is_file: false, bytes: None }
}

fn file(p: &str, bytes: u64) -> WalkEntry {
    WalkEntry { rel_path: p.to_string(), is_dir: false, is_file: true, bytes: Some(bytes) }
}

fn strings(v: &[&str]) -> Vec<String> {
    v.iter().map(|s| s.to_string()).collect()
}

fn rust_walk() -> Vec<WalkEntry> {
    vec![
        dir(""),
        file("Cargo.toml", 25),
        dir("src"),
        file("src/main.rs", 260),
        file("src/lib.rs", 280),
    ]
}

#[test]
fn a_rust_tree_counts_its_files_and_finds_its_marker() {
    let stats = scan_stats_from(&rust_walk(), &[], MAX_SCAN_FILES, false, &strings(&["md"]), &strings(&["rs"]));
    assert_eq!(stats.total_files, 3);
    assert_eq!(stats.total_bytes, 565);
    assert_eq!(stats.markers, strings(&["Cargo.toml"]));
    assert_eq!(stats.top_level_dirs, strings(&["src"]));
    assert_eq!(stats.code_bytes, 540);
    assert_eq!(stats.doc_bytes, 0);
    assert_eq!(stats.largest_dirs, vec![("src".to_string(), 540)]);
    assert!(!stats.truncated);
    let rs = stats.extensions.iter().find(|(e, _)| e == "rs").unwrap();
    assert_eq!((rs.1.count, rs.1.bytes), (2, 540));
    let toml = stats.extensions.iter().find(|(e, _)| e == "toml").unwrap();
    assert_eq!((toml.1.count, toml.1.bytes), (1, 25));
}

#[test]
fn excluded_folders_are_passed_over() {
    let stats = scan_stats_from(&rust_walk(), &strings(&["/src/"]), MAX_SCAN_FILES, false, &[], &[]);
    assert_eq!(stats.total_files, 1);
    assert!(stats.top_level_dirs.is_empty());
    assert!(stats.largest_dirs.is_empty());
}

#[test]
fn the_cap_stops_the_scan_and_says_so() {
    let walk: Vec<WalkEntry> = (0..10).map(|i| file(&format!("f{i}.txt"), 1)).collect();
    let under = scan_stats_from(&walk, &[], 10, false, &[], &[]);
    assert_eq!(under.total_files, 10);
    assert!(!under.truncated);
    let over = scan_stats_from(&walk, &[], 5, false, &[], &[]);
    assert_eq!(over.total_files, 5);
    assert_eq!(over.total_bytes, 5);
    assert!(over.truncated);
    assert_eq!(MAX_SCAN_FILES, 50_000);
}

#[test]
fn a_git_folder_is_a_marker_and_sln_files_count_once() {
    let walk = vec![file("README.md", 5), file("App.SLN", 3), file("b/Other.sln", 3), file("package.json", 2)];
    let stats = scan_stats_from(&walk, &[], MAX_SCAN_FILES, true, &strings(&["md"]), &[]);
    assert_eq!(stats.markers, strings(&[".git", "*.sln", "package.json"]));
    assert_eq!(stats.doc_bytes, 5);
}

#[test]
fn extensions_follow_path_rules() {
    let walk = vec![file(".hidden", 1), file("noext", 2), file("a.tar.GZ", 4), file("d/x.", 8)];
    let stats = scan_stats_from(&walk, &[], MAX_SCAN_FILES, false, &[], &[]);
    let get = |e: &str| stats.extensions.iter().find(|(k, _)| k == e).map(|(_, s)| (s.count, s.bytes));
    assert_eq!(get(""), Some((3, 11)));
    assert_eq!(get("gz"), Some((1, 4)));
    assert_eq!(stats.extensions.len(), 2);
}

#[test]
fn unsized_files_count_but_add_no_bytes() {
    let walk = vec![WalkEntry { rel_path: "a.png".into(), is_dir: false, is_file: true, bytes: None }, file("b.png", 7)];
    let stats = scan_stats_from(&walk, &[], MAX_SCAN_FILES, false, &[], &[]);
    assert_eq!(stats.total_files, 2);
    assert_eq!(stats.total_bytes, 7);
    assert_eq!(stats.media_bytes, 7);
}

#[test]
fn largest_dirs_are_by_size_then_name_and_capped() {
    let mut walk = Vec::new();
    for i in 0..25u64 {
        walk.push(file(&format!("d{:02}/f", i), 100 + (i % 3)));
    }
    walk.push(file("zz/a", 102));
    let stats = scan_stats_from(&walk, &[], MAX_SCAN_FILES, false, &[], &[]);
    assert_eq!(stats.largest_dirs.len(), MAX_LARGEST_DIRS);
    assert_eq!(stats.largest_dirs[0], ("d02".to_string(), 102));
    assert_eq!(stats.largest_dirs[1], ("d05".to_string(), 102));
    for w in stats.largest_dirs.windows(2) {
        assert!(w[0].1 > w[1].1 || (w[0].1 == w[1].1 && w[0].0 < w[1].0));
    }
    // The nine 102-byte folders (eight `dNN` and `zz`) come first.
    assert_eq!(stats.largest_dirs[8], ("zz".to_string(), 102));
}

#[test]
fn top_level_folders_come_out_sorted() {
    let walk = vec![dir("b"), dir("a"), dir("a/inner"), dir("c")];
    let stats = scan_stats_from(&walk, &[], MAX_SCAN_FILES, false, &[], &[]);
    assert_eq!(stats.top_level_dirs, strings(&["a", "b", "c"]));
}
