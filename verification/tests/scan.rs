use ken_core::scan::{
    is_junk_dir_name, is_office_lock_name, needs_retry, STATUS_CLOUD_ONLY, STATUS_FAILED,
    STATUS_INDEXED, STATUS_METADATA_ONLY,
};

#[test]
fn retry_rule_covers_only_rows_whose_content_could_have_changed() {
    let timeout = Some("extraction failed: Operation timed out (os error 60)");
    assert!(!needs_retry(STATUS_CLOUD_ONLY, None, true));
    assert!(needs_retry(STATUS_CLOUD_ONLY, None, false));
    assert!(needs_retry(STATUS_FAILED, timeout, true));
    assert!(!needs_retry(STATUS_FAILED, Some("PDF error: invalid xref"), false));
    assert!(!needs_retry(STATUS_INDEXED, None, false));
    assert!(!needs_retry(STATUS_METADATA_ONLY, None, false));
}

#[test]
fn a_failure_is_retried_only_while_still_a_placeholder() {
    assert!(!needs_retry(STATUS_FAILED, Some("I/O error"), false));
    assert!(needs_retry(STATUS_FAILED, Some("IO Error: stalled"), true));
    assert!(!needs_retry(STATUS_FAILED, None, true));
}

#[test]
fn junk_and_lock_names() {
    assert!(is_junk_dir_name("node_modules"));
    assert!(is_junk_dir_name("__pycache__"));
    assert!(!is_junk_dir_name("Node_modules"));
    assert!(!is_junk_dir_name("src"));
    assert!(is_office_lock_name("~$Budget.xlsx"));
    assert!(!is_office_lock_name("Budget.xlsx"));
    assert!(!is_office_lock_name("~Budget.xlsx"));
}

use ken_core::scan::{plan_scan, tally_scan, DiskEntry, IndexOutcome, IndexedEntry};

fn disk(rel: &str, size: i64, mtime: i64, dataless: bool) -> DiskEntry {
    DiskEntry { rel: rel.to_string(), size, mtime, dataless }
}

fn row(rel: &str, size: i64, mtime: i64, status: &str, error: Option<&str>) -> IndexedEntry {
    IndexedEntry { rel: rel.to_string(), size, mtime, status: status.to_string(), error: error.map(|e| e.to_string()) }
}

#[test]
fn the_plan_removes_adds_updates_and_keeps() {
    let on_disk = vec![
        disk("same.md", 10, 100, false),
        disk("grown.md", 20, 100, false),
        disk("new.md", 5, 100, false),
        disk("arrived.pdf", 30, 100, false),
    ];
    let indexed = vec![
        row("gone.md", 1, 1, STATUS_INDEXED, None),
        row("same.md", 10, 100, STATUS_INDEXED, None),
        row("grown.md", 10, 100, STATUS_INDEXED, None),
        row("arrived.pdf", 30, 100, STATUS_CLOUD_ONLY, None),
    ];
    let plan = plan_scan(&on_disk, &indexed);
    assert_eq!(plan.removals, vec!["gone.md".to_string()]);
    let planned: Vec<(&str, bool)> = plan.to_index.iter().map(|f| (f.rel.as_str(), f.is_new)).collect();
    assert_eq!(planned, vec![("grown.md", false), ("new.md", true), ("arrived.pdf", false)]);
    assert_eq!(plan.unchanged, 1);
    // Every file on disk is either unchanged or planned, once.
    assert_eq!(plan.unchanged + plan.to_index.len(), on_disk.len());
}

#[test]
fn the_tally_counts_each_outcome() {
    let on_disk = vec![disk("a.md", 1, 1, false), disk("clip.mp4", 2, 2, false), disk("b.pdf", 3, 3, false)];
    let indexed = vec![row("old.md", 1, 1, STATUS_INDEXED, None), row("b.pdf", 9, 9, STATUS_INDEXED, None)];
    let plan = plan_scan(&on_disk, &indexed);
    let outcomes = vec![
        IndexOutcome { status: STATUS_INDEXED.to_string(), is_video: false },
        IndexOutcome { status: STATUS_METADATA_ONLY.to_string(), is_video: true },
        IndexOutcome { status: STATUS_FAILED.to_string(), is_video: false },
    ];
    let stats = tally_scan(&plan, &outcomes);
    assert_eq!((stats.added, stats.updated, stats.removed, stats.failed, stats.unchanged), (2, 1, 1, 1, 0));
    assert_eq!(stats.changed_paths, vec!["old.md", "a.md", "clip.mp4", "b.pdf"]);
    assert_eq!(stats.videos_needing_transcript, vec!["clip.mp4".to_string()]);
}

#[test]
fn an_empty_folder_and_index_plan_nothing() {
    let plan = plan_scan(&[], &[]);
    assert!(plan.removals.is_empty() && plan.to_index.is_empty());
    assert_eq!(plan.unchanged, 0);
}
