use ken_core::profile::{
    apply_refinement, guess_languages, marker_excludes, profile_prompt_addendum, ProjectProfile,
    PROFILE_PROMPT_ADDENDUM_CHAR_CAP,
};
use ken_core::profiler::{ExtStat, ProfileRefinement, ProjectKind, ScanStats};

fn strings(v: &[&str]) -> Vec<String> {
    v.iter().map(|s| s.to_string()).collect()
}

#[test]
fn junk_suggestion_dropped_rest_kept() {
    // "vendor" exists; "imaginary" does not.
    let mut profile = ProjectProfile::default();
    let refinement = ProfileRefinement { excludes: strings(&["vendor", "imaginary"]), ..Default::default() };
    apply_refinement(&mut profile, &refinement, &[true, false]);
    assert_eq!(profile.excludes, strings(&["vendor/"]));
}

#[test]
fn exclude_suggestion_containing_a_repo_marker_is_dropped() {
    // "packages/sibling" holds a package.json, so it is not acceptable.
    let mut profile = ProjectProfile::default();
    let refinement = ProfileRefinement { excludes: strings(&["packages/sibling"]), ..Default::default() };
    apply_refinement(&mut profile, &refinement, &[false]);
    assert!(profile.excludes.is_empty(), "must not exclude a nested project: {:?}", profile.excludes);
}

#[test]
fn apply_refinement_never_removes_deterministic_excludes() {
    let mut profile = ProjectProfile { excludes: strings(&["target/"]), ..Default::default() };
    apply_refinement(&mut profile, &ProfileRefinement::default(), &[]);
    assert_eq!(profile.excludes, strings(&["target/"]));
}

#[test]
fn apply_refinement_deduplicates_against_existing_excludes() {
    let mut profile = ProjectProfile { excludes: strings(&["target/"]), ..Default::default() };
    let refinement = ProfileRefinement { excludes: strings(&["target"]), ..Default::default() };
    apply_refinement(&mut profile, &refinement, &[true]);
    assert_eq!(profile.excludes, strings(&["target/"]), "must not duplicate");
}

#[test]
fn a_refinement_replaces_kind_and_summary_and_adds_hints_once() {
    let mut profile = ProjectProfile {
        summary: "old".into(),
        focus_hints: strings(&["billing"]),
        languages: strings(&["Rust"]),
        ..Default::default()
    };
    let refinement = ProfileRefinement {
        kind: Some(ProjectKind::Docs),
        summary: Some("new".into()),
        focus_hints: strings(&["billing", "search", "search"]),
        excludes: strings(&["/dist/", "dist", "", "//"]),
    };
    apply_refinement(&mut profile, &refinement, &[true, true, true, true]);
    assert_eq!(profile.kind, ProjectKind::Docs);
    assert_eq!(profile.summary, "new");
    assert_eq!(profile.focus_hints, strings(&["billing", "search"]));
    assert_eq!(profile.excludes, strings(&["dist/"]));
    assert_eq!(profile.languages, strings(&["Rust"]));
    // Nothing given, nothing changed.
    let before = profile.clone();
    apply_refinement(&mut profile, &ProfileRefinement::default(), &[]);
    assert_eq!(profile, before);
}

#[test]
fn profile_prompt_addendum_empty_when_no_summary_or_hints() {
    assert_eq!(profile_prompt_addendum(&ProjectProfile::default()), "");
}

#[test]
fn profile_prompt_addendum_contains_summary_and_hints_within_cap() {
    let profile = ProjectProfile {
        summary: "A tool for managing widgets.".into(),
        focus_hints: strings(&["widgets", "billing"]),
        ..Default::default()
    };
    let addendum = profile_prompt_addendum(&profile);
    assert!(addendum.contains("Project summary: A tool for managing widgets."));
    assert!(addendum.contains("Focus areas: widgets, billing"));
    assert!(addendum.chars().count() <= PROFILE_PROMPT_ADDENDUM_CHAR_CAP);
}

#[test]
fn profile_prompt_addendum_is_capped_at_500_chars() {
    let profile = ProjectProfile { summary: "x".repeat(2000), ..Default::default() };
    let addendum = profile_prompt_addendum(&profile);
    assert_eq!(addendum.chars().count(), PROFILE_PROMPT_ADDENDUM_CHAR_CAP);
}

#[test]
fn the_addendum_reads_exactly() {
    let profile = ProjectProfile { summary: "  Widgets.  ".into(), focus_hints: strings(&["a", "b"]), ..Default::default() };
    assert_eq!(profile_prompt_addendum(&profile), "Project summary: Widgets.\nFocus areas: a, b\n");
    let hints_only = ProjectProfile { summary: "   ".into(), focus_hints: strings(&["a"]), ..Default::default() };
    assert_eq!(profile_prompt_addendum(&hints_only), "Focus areas: a\n");
}

#[test]
fn markers_imply_their_build_folders_once() {
    let stats = ScanStats { markers: strings(&[".git", "package.json", "pyproject.toml", "*.sln"]), ..Default::default() };
    assert_eq!(
        marker_excludes(&stats),
        strings(&["node_modules/", "dist/", "build/", "__pycache__/", "venv/", ".venv/", "bin/", "obj/"])
    );
    assert!(marker_excludes(&ScanStats::default()).is_empty());
}

#[test]
fn languages_rank_by_bytes_then_name() {
    let ext = |e: &str, bytes: u64| (e.to_string(), ExtStat { count: 1, bytes });
    let stats = ScanStats {
        extensions: vec![
            ext("md", 9000),
            ext("ts", 100),
            ext("tsx", 150),
            ext("rs", 250),
            ext("py", 10),
            ext("go", 10),
            ext("c", 5),
            ext("h", 6),
            ext("rb", 1),
            ext("sql", 2),
        ],
        ..Default::default()
    };
    // TypeScript and Rust tie at 250 bytes: the name decides.
    assert_eq!(guess_languages(&stats), strings(&["Rust", "TypeScript", "C", "Go", "Python", "SQL"]));
    assert!(guess_languages(&ScanStats::default()).is_empty());
}

use ken_core::profile::{chunking_for, PatternProfile};

#[derive(Debug, Clone, Copy, PartialEq)]
enum ChunkMode {
    Skip,
    Code,
}

#[derive(Debug, Clone, Copy, PartialEq)]
struct IndexProfile {
    mode: ChunkMode,
    target_tokens: u32,
    overlap_pct: f64,
}

#[test]
fn chunking_for_skip_pattern_yields_skip_mode() {
    let chunking = vec![PatternProfile {
        pattern: "*.log".to_string(),
        profile: IndexProfile { mode: ChunkMode::Skip, target_tokens: 1, overlap_pct: 0.0 },
    }];
    assert_eq!(chunking_for(&chunking, "run.log").unwrap().mode, ChunkMode::Skip);
    assert!(chunking_for(&chunking, "other.rs").is_none());
}

#[test]
fn chunking_matches_the_first_pattern_ignoring_case() {
    let code = IndexProfile { mode: ChunkMode::Code, target_tokens: 400, overlap_pct: 0.1 };
    let skip = IndexProfile { mode: ChunkMode::Skip, target_tokens: 1, overlap_pct: 0.0 };
    let chunking = vec![
        PatternProfile { pattern: "*.RS".to_string(), profile: code },
        PatternProfile { pattern: "*.rs".to_string(), profile: skip },
        PatternProfile { pattern: "*.makefile".to_string(), profile: skip },
    ];
    assert_eq!(chunking_for(&chunking, "src/Main.rs"), Some(code));
    assert_eq!(chunking_for(&chunking, "Makefile"), Some(skip));
    assert_eq!(chunking_for(&chunking, "notes."), None);
}
