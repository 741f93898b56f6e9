use ken_core::profile_scan::{scan_stats_from, WalkEntry, MAX_SCAN_FILES};
use ken_core::profiler::{
    compose_profile_prompt, parse_profile_refinement, profile_path, resolve_refinement, tree_sample, ProfileRefinement, ProjectKind, RawRefinement,
    ScanStats, MAX_TREE_SAMPLE_LINES,
};
use std::path::{Path, PathBuf};

#[test]
fn tree_sample_is_capped_and_dirs_first() {
    let mut stats = ScanStats::default();
    for i in 0..(MAX_TREE_SAMPLE_LINES + 20) {
        stats.largest_dirs.push((format!("dir{i}"), (MAX_TREE_SAMPLE_LINES + 20 - i) as u64));
    }
    let sample = tree_sample(&stats);
    assert_eq!(sample.len(), MAX_TREE_SAMPLE_LINES);
    assert!(sample[0].starts_with("dir0/"));
}

#[test]
fn tree_sample_lists_sized_dirs_then_the_rest_once() {
    let mut stats = ScanStats::default();
    stats.largest_dirs.push(("docs".into(), 1200));
    stats.top_level_dirs = vec!["docs".into(), "empty".into()];
    assert_eq!(tree_sample(&stats), vec!["docs/  (~1200 bytes)".to_string(), "empty/".to_string()]);
}

#[test]
fn profile_lives_in_the_ken_folder() {
    assert_eq!(PathBuf::from(profile_path("/p")), Path::new("/p/.ken/index-profile.json"));
}

#[test]
fn parse_refinement_strips_fences_and_prose() {
    let raw = "Sure, here you go:\n```json\n{\"kind\": \"docs\", \"summary\": \"A docs site.\", \"focus_hints\": [\"onboarding\"]}\n```\nHope that helps!";
    let r = parse_profile_refinement(raw);
    assert_eq!(r.kind, Some(ProjectKind::Docs));
    assert_eq!(r.summary.as_deref(), Some("A docs site."));
    assert_eq!(r.focus_hints, vec!["onboarding".to_string()]);
}

#[test]
fn parse_refinement_ignores_unknown_fields_and_bad_kind() {
    let raw = r#"{"kind": "spreadsheet", "madeUpField": 1, "excludes": ["vendor"]}"#;
    let r = parse_profile_refinement(raw);
    assert_eq!(r.kind, None, "invalid kind is dropped, not defaulted");
    assert_eq!(r.excludes, vec!["vendor".to_string()]);
}

#[test]
fn parse_refinement_total_garbage_is_a_no_op() {
    let r = parse_profile_refinement("not json at all, sorry, can't help");
    assert_eq!(r, ProfileRefinement::default());
}

#[test]
fn refinement_hints_are_trimmed_and_capped() {
    let raw = RawRefinement {
        kind: Some("  MEDIA ".into()),
        excludes: vec![Some(" dist/ ".into()), None, Some("  ".into())],
        summary: Some("   ".into()),
        focus_hints: (0..25).map(|i| Some(format!(" h{i} "))).collect(),
    };
    let r = resolve_refinement(&raw);
    assert_eq!(r.kind, Some(ProjectKind::Media));
    assert_eq!(r.excludes, vec!["dist/".to_string()]);
    assert_eq!(r.summary, None);
    assert_eq!(r.focus_hints.len(), 20);
    assert_eq!(r.focus_hints[0], "h0");
    assert_eq!(ProjectKind::default(), ProjectKind::Mixed);
}

#[test]
fn compose_profile_prompt_includes_stats_and_asks_for_json() {
    let entry = |p: &str, dir: bool, bytes: u64| WalkEntry {
        rel_path: p.to_string(),
        is_dir: dir,
        is_file: !dir,
        bytes: if dir { None } else { Some(bytes) },
    };
    let walk = vec![
        entry("Cargo.toml", false, 25),
        entry("src", true, 0),
        entry("src/main.rs", false, 260),
        entry("src/lib.rs", false, 280),
    ];
    let stats = scan_stats_from(&walk, &[], MAX_SCAN_FILES, false, &[], &["rs".to_string()]);
    let sample = tree_sample(&stats);
    let prompt = compose_profile_prompt(&stats, &sample, "0");
    assert!(prompt.contains("Cargo.toml"));
    assert!(prompt.contains("\"kind\""));
    assert!(prompt.contains("\"excludes\""));
}

#[test]
fn the_profile_prompt_reads_in_order() {
    let mut stats = ScanStats::default();
    stats.total_files = 3;
    stats.truncated = true;
    let prompt = compose_profile_prompt(&stats, &[], "42");
    assert!(prompt.starts_with("You are Ken, refining a project profile"));
    assert!(prompt.contains("Files scanned: 3 (truncated at the scan cap)\nRepo markers: none\n"));
    assert!(prompt.contains("Doc-vs-code byte ratio: 42% doc\n\nTop-level tree (directories first, largest by bytes):\n- (empty)\n\nOutput ONLY a JSON object"));
    assert!(prompt.ends_with("focus_hints to a few short topics.\n"));
    stats.markers = vec!["Cargo.toml".to_string(), ".git".to_string()];
    let lines: Vec<String> = (0..200).map(|i| format!("d{i}/")).collect();
    let prompt = compose_profile_prompt(&stats, &lines, "0");
    assert!(prompt.contains("Repo markers: Cargo.toml, .git\n"));
    assert!(prompt.contains("- d149/\n"));
    assert!(!prompt.contains("- d150/"));
    assert!(!prompt.contains("(empty)"));
}
