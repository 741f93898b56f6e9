use ken_core::knowledge_model::{
    compose_extraction_prompt, compose_file_prompt, content_hash, should_auto_build,
    AutoBuildContext, AutoBuildState, AutoBuildTracker, CHANGE_QUIET, EXTRACT_CHAR_BUDGET,
    FIRST_BUILD_SETTLE, MAX_DEFER, MIN_AUTO_INTERVAL,
};

fn secs(n: u64) -> u64 {
    n * 1000
}

#[test]
fn content_hash_is_stable_and_sensitive() {
    assert_eq!(content_hash("hello"), content_hash("hello"));
    assert_ne!(content_hash("hello"), content_hash("hello "));
    let h = content_hash("anything");
    assert_eq!(h.len(), 16);
    assert!(h.bytes().all(|b| b.is_ascii_hexdigit()));
}

#[test]
fn content_hash_is_64_bit_fnv_1a_of_the_utf8_bytes() {
    // Published FNV-1a test vectors.
    assert_eq!(content_hash(""), "cbf29ce484222325");
    assert_eq!(content_hash("a"), "af63dc4c8601ec8c");
    assert_eq!(content_hash("foobar"), "85944171f73967e8");
}

#[test]
fn file_prompt_is_single_file_and_strict() {
    let p = compose_file_prompt("notes/kickoff.md", "We hired Priya.", "2026-07-14");
    assert!(p.contains("notes/kickoff.md"));
    assert!(p.contains("We hired Priya."));
    assert!(p.contains("ONLY a JSON object"));
    assert!(p.contains("\"relations\""));
    assert!(p.contains("\"events\""));
    assert!(p.contains("person|organization|topic|decision|other"));
    assert!(p.contains("yyyy-mm-dd"));
    assert!(p.contains("2026-07-14"));
    assert!(p.contains("40 entities"));
}

#[test]
fn file_prompt_truncates_to_budget() {
    let big = "x".repeat(EXTRACT_CHAR_BUDGET + 5_000);
    let p = compose_file_prompt("big.md", &big, "2026-07-14");
    assert!(p.matches('x').count() <= EXTRACT_CHAR_BUDGET);
    assert!(p.chars().count() <= EXTRACT_CHAR_BUDGET);
    assert!(p.ends_with("x\n"));
}

fn idle() -> AutoBuildState {
    AutoBuildState {
        claude_available: true,
        in_flight: false,
        scanning: false,
        indexed_files: 12,
        never_built: false,
        dirty: false,
        since_last_change: None,
        since_first_change: None,
        since_last_attempt: None,
    }
}

#[test]
fn settled_project_with_a_model_never_rebuilds_on_its_own() {
    assert!(!should_auto_build(&idle()));
}

#[test]
fn fresh_project_builds_once_the_scan_settles() {
    let mut s = AutoBuildState { never_built: true, ..idle() };
    s.scanning = true;
    assert!(!should_auto_build(&s));

    s.scanning = false;
    s.dirty = true;
    s.since_last_change = Some(secs(10));
    s.since_first_change = Some(secs(40));
    assert!(!should_auto_build(&s));

    s.since_last_change = Some(FIRST_BUILD_SETTLE);
    assert!(should_auto_build(&s));
}

#[test]
fn fresh_project_with_nothing_to_read_stays_quiet() {
    let s = AutoBuildState { never_built: true, indexed_files: 0, ..idle() };
    assert!(!should_auto_build(&s));
}

#[test]
fn a_burst_of_changes_coalesces_into_one_build() {
    let mut s = AutoBuildState {
        dirty: true,
        since_last_attempt: Some(MIN_AUTO_INTERVAL),
        since_first_change: Some(secs(0)),
        since_last_change: Some(secs(0)),
        ..idle()
    };
    for elapsed in [0, 30, 60, 120, 240] {
        s.since_last_change = Some(secs(elapsed));
        s.since_first_change = Some(secs(elapsed));
        assert!(!should_auto_build(&s), "should still be waiting at {elapsed}s");
    }
    s.since_last_change = Some(CHANGE_QUIET);
    s.since_first_change = Some(CHANGE_QUIET);
    assert!(should_auto_build(&s));
}

#[test]
fn an_endless_stream_of_changes_still_gets_a_build() {
    let s = AutoBuildState {
        dirty: true,
        since_last_change: Some(secs(1)),
        since_first_change: Some(MAX_DEFER),
        since_last_attempt: Some(MIN_AUTO_INTERVAL),
        ..idle()
    };
    assert!(should_auto_build(&s));
}

#[test]
fn a_build_in_flight_is_never_double_started() {
    let s = AutoBuildState {
        in_flight: true,
        never_built: true,
        dirty: true,
        since_last_change: Some(secs(3600)),
        since_first_change: Some(secs(3600)),
        ..idle()
    };
    assert!(!should_auto_build(&s));
}

#[test]
fn rebuilds_wait_out_the_cooldown() {
    let mut s = AutoBuildState {
        dirty: true,
        since_last_change: Some(CHANGE_QUIET),
        since_first_change: Some(CHANGE_QUIET),
        since_last_attempt: Some(MIN_AUTO_INTERVAL - secs(1)),
        ..idle()
    };
    assert!(!should_auto_build(&s), "too soon after the last attempt");
    s.since_last_attempt = Some(MIN_AUTO_INTERVAL);
    assert!(should_auto_build(&s));
}

#[test]
fn a_failed_attempt_does_not_retry_storm() {
    let s = AutoBuildState { never_built: true, since_last_attempt: Some(secs(5)), ..idle() };
    assert!(!should_auto_build(&s));

    let missing = AutoBuildState { claude_available: false, never_built: true, ..idle() };
    assert!(!should_auto_build(&missing));
}

#[test]
fn tracker_coalesces_changes_and_reports_elapsed_time() {
    let mut t = AutoBuildTracker::new();
    let start: u64 = 1_000_000;
    let ctx = |never_built| AutoBuildContext {
        claude_available: true,
        in_flight: false,
        indexed_files: 5,
        never_built,
    };

    assert!(!t.should_build(ctx(true), start));
    t.scan_finished();
    assert!(t.should_build(ctx(true), start), "first build once the scan settles");

    t.changed_at(start);
    t.changed_at(start + secs(3));
    t.changed_at(start + secs(10));
    let s = t.snapshot(ctx(false), start + secs(20));
    assert!(s.dirty);
    assert_eq!(s.since_last_change, Some(secs(10)));
    assert_eq!(s.since_first_change, Some(secs(20)));

    t.build_started(start + secs(400));
    assert!(!t.snapshot(ctx(false), start + secs(401)).dirty);
    t.changed_at(start + secs(450));
    t.build_finished(start + secs(500));
    let s = t.snapshot(ctx(false), start + secs(501));
    assert!(s.dirty, "the mid-build change still needs a rebuild");
    assert_eq!(s.since_last_attempt, Some(secs(1)));
}

#[test]
fn compose_carries_the_contract() {
    let files = vec!["notes/meeting-jul-8.md".to_string(), "knowledge/People.md".to_string()];
    let prompt = compose_extraction_prompt(&files, "2026-07-12");
    assert!(prompt.contains("ONLY a JSON object"));
    assert!(prompt.contains("\"entities\""));
    assert!(prompt.contains("\"connections\""));
    assert!(prompt.contains("\"events\""));
    assert!(prompt.contains("person|organization|topic|decision|other"));
    assert!(prompt.contains("yyyy-mm-dd"));
    assert!(prompt.contains("At most 200 entities and 150 events"));
    assert!(prompt.contains("never invent"));
    assert!(prompt.contains("omit events with no inferable date"));
    assert!(prompt.contains("2026-07-12"));
    assert!(prompt.contains("- notes/meeting-jul-8.md"));
    assert!(prompt.contains("- knowledge/People.md"));
}

#[test]
fn compose_caps_the_file_list() {
    let files: Vec<String> = (0..430).map(|i| format!("notes/f{i}.md")).collect();
    let prompt = compose_extraction_prompt(&files, "2026-07-12");
    assert!(prompt.contains("- notes/f399.md"));
    assert!(!prompt.contains("- notes/f400.md"));
    assert!(prompt.contains("…and 30 more"));
    assert!(compose_extraction_prompt(&[], "2026-07-12").contains("- none"));
}
