use ken_core::kenignore::{classify, Rule, Tier};
use ken_core::memory::{
    build_injection, compose_distill_prompt, first_line, journal_entry, journal_with_entry, journal_archive_dir, journal_dir,
    parse_distill_candidates, project_memory_dir, validate_slug, workspace_builtin_rules,
    workspace_memory_dir, workspace_pseudo_member_id, DistillCandidate, Memory, MemoryScope,
    MAX_DISTILL_CANDIDATES,
};
use std::path::{Path, PathBuf};
use uuid::Uuid;

#[test]
fn compose_distill_prompt_carries_dedupe_guard_and_window() {
    let existing = vec![("style".to_string(), "How we name things".to_string())];
    let prompt = compose_distill_prompt("## 09:00\nShipped X.\n", &existing);
    assert!(prompt.contains("style: How we name things"));
    assert!(prompt.contains("Shipped X."));
    assert!(prompt.contains("\"candidates\""));
    assert!(compose_distill_prompt("", &[]).contains("- none yet\n"));
}

#[test]
fn pseudo_member_id_is_deterministic_and_never_collides_with_v4() {
    let ws = Uuid::new_v4();
    let a = Uuid::from_bytes(workspace_pseudo_member_id(*ws.as_bytes()));
    let b = Uuid::from_bytes(workspace_pseudo_member_id(*ws.as_bytes()));
    assert_eq!(a, b, "deterministic for the same workspace id");
    assert_ne!(a, ws);
    assert_eq!(a.get_version_num(), 8);
    let other_ws = Uuid::new_v4();
    assert_ne!(Uuid::from_bytes(workspace_pseudo_member_id(*other_ws.as_bytes())), a);
}

#[test]
fn workspace_builtin_rules_classify_as_designed() {
    let rules = workspace_builtin_rules();
    let rs: &[&[Rule]] = &[&rules];
    assert_eq!(classify("memory/style.md", false, rs), Tier::Full);
    assert_eq!(classify("journal/2026-07-01.md", false, rs), Tier::SearchOnly);
    assert_eq!(classify("journal/archive/2026-01-01.md", false, rs), Tier::SearchOnly);
    assert_eq!(classify("tasks/todo.md", false, rs), Tier::SearchOnly);
    assert_eq!(classify("workspace.json", false, rs), Tier::Ignore);
    assert_eq!(classify("kg.sqlite", false, rs), Tier::Ignore);
    assert_eq!(classify("tasks_notes.md", false, rs), Tier::Full);
}

#[test]
fn slugs_must_be_plain_file_names() {
    assert!(validate_slug("style-guide").is_ok());
    assert!(validate_slug("").is_err());
    assert!(validate_slug(" padded").is_err());
    assert!(validate_slug("a/b").is_err());
    assert!(validate_slug("a\\b").is_err());
    assert!(validate_slug(".hidden").is_err());
    assert_eq!(
        validate_slug("a/b").unwrap_err().message(),
        "'a/b' is not a valid memory slug — use a simple file-name-safe slug"
    );
}

#[test]
fn memory_folders_follow_the_workspace_and_project_conventions() {
    assert_eq!(PathBuf::from(workspace_memory_dir("/ws")), Path::new("/ws/.ken-workspace/memory"));
    assert_eq!(PathBuf::from(project_memory_dir("/p")), Path::new("/p/.ken/memory"));
    assert_eq!(PathBuf::from(journal_dir("/ws")), Path::new("/ws/.ken-workspace/journal"));
    assert_eq!(PathBuf::from(journal_archive_dir("/ws")), Path::new("/ws/.ken-workspace/journal/archive"));
    assert_eq!(MemoryScope::Project { project_root: "/p" }.memory_dir(), project_memory_dir("/p"));
    assert_eq!(MemoryScope::Workspace { workspace_root: "/ws" }.memory_dir(), workspace_memory_dir("/ws"));
}

fn mem(slug: &str, updated: &str, body: &str) -> Memory {
    Memory {
        slug: slug.to_string(),
        description: format!("{slug} description"),
        projects: Vec::new(),
        created: updated.to_string(),
        updated: updated.to_string(),
        body: body.to_string(),
    }
}

#[test]
fn injection_empty_list_is_empty_string() {
    assert_eq!(build_injection(&[]), "");
}

#[test]
fn injection_orders_by_updated_desc() {
    let memories = vec![mem("old", "2026-01-01", "old body"), mem("new", "2026-07-01", "new body"), mem("mid", "2026-04-01", "mid body")];
    let out = build_injection(&memories);
    let pos_new = out.find("### new").unwrap();
    let pos_mid = out.find("### mid").unwrap();
    let pos_old = out.find("### old").unwrap();
    assert!(pos_new < pos_mid && pos_mid < pos_old);
}

#[test]
fn injection_over_budget_memory_degrades_to_description() {
    let big = "x".repeat(3_970);
    let memories = vec![mem("first", "2026-07-02", &big), mem("second", "2026-07-01", "small body that would still fit alone")];
    let out = build_injection(&memories);
    assert!(out.contains(&big), "first memory injected whole");
    assert!(
        !out.contains("small body that would still fit alone"),
        "second memory's body must NOT appear once budget is exceeded"
    );
    assert!(out.contains("second description"), "second memory falls back to its description line");
}

#[test]
fn injection_text_is_exact_and_ties_keep_their_order() {
    let memories = vec![mem("a", "2026-07-01", "  A body \n"), mem("b", "2026-07-01", "B")];
    assert_eq!(build_injection(&memories), "## Memories\n\n### a\nA body\n\n### b\nB\n\n");
}

#[test]
fn first_line_skips_blank_lines_and_heading_marks() {
    assert_eq!(first_line("\n\n  ## Ways of working  \nmore"), "Ways of working");
    assert_eq!(first_line("   \n\t\n"), "");
    assert_eq!(first_line("plain"), "plain");
}

#[test]
fn parse_distill_valid_candidates() {
    let raw = r#"{"candidates": [
        {"slug": "review-cadence", "description": "How we review PRs", "body": "Full body.", "sources": ["journal/2026-07-01.md"]},
        {"slug": "naming", "description": "", "body": "Prefix everything with feat/fix.", "sources": []}
    ]}"#;
    let out = parse_distill_candidates(raw);
    assert_eq!(out.len(), 2);
    assert_eq!(out[0].slug, "review-cadence");
    assert_eq!(out[0].sources, vec!["journal/2026-07-01.md".to_string()]);
    // Empty description falls back to the body's first line.
    assert_eq!(out[1].description, "Prefix everything with feat/fix.");
}

#[test]
fn parse_distill_partial_drops_bad_records_keeps_good_ones() {
    let raw = r#"{"candidates": [
        {"slug": "", "description": "no slug", "body": "x"},
        {"slug": "bad/slug", "description": "invalid", "body": "x"},
        {"slug": "no-body", "description": "missing body"},
        {"slug": "ok", "description": "fine", "body": "Kept."}
    ]}"#;
    let out = parse_distill_candidates(raw);
    assert_eq!(out.len(), 1);
    assert_eq!(out[0].slug, "ok");
}

#[test]
fn parse_distill_caps_at_five() {
    let items: Vec<String> = (0..8).map(|i| format!(r#"{{"slug": "s{i}", "description": "d", "body": "b"}}"#)).collect();
    let raw = format!(r#"{{"candidates": [{}]}}"#, items.join(","));
    assert_eq!(parse_distill_candidates(&raw).len(), MAX_DISTILL_CANDIDATES);
}

#[test]
fn parse_distill_garbage_is_empty() {
    assert!(parse_distill_candidates("not json at all").is_empty());
    assert!(parse_distill_candidates("").is_empty());
    assert!(parse_distill_candidates("{ this is not valid json").is_empty());
    assert!(parse_distill_candidates(r#"{"candidates": "not an array"}"#).is_empty());
}

#[test]
fn journal_entries_carry_time_project_and_tags() {
    assert_eq!(journal_entry("Shipped the search fix.", None, &[], "09:15"), "## 09:15\nShipped the search fix.\n");
    let e = journal_entry(
        "Agent finished the report.",
        Some("Atlas"),
        &["automation".to_string(), "agent-desktop".to_string()],
        "10:00",
    );
    assert!(e.contains("Project: Atlas\n"));
    assert!(e.contains("Tags: automation, agent-desktop\n"));
    assert_eq!(journal_entry(" x ", Some("  "), &[], "11:00"), "## 11:00\nx\n");
}

#[test]
fn same_day_entries_are_separated_by_a_blank_line() {
    let first = journal_with_entry("", &journal_entry("Morning note.", None, &[], "08:00"));
    let both = journal_with_entry(&first, &journal_entry("Evening note.", None, &[], "20:00"));
    assert_eq!(both, "## 08:00\nMorning note.\n\n## 20:00\nEvening note.\n");
    assert_eq!(journal_with_entry("no newline", "E"), "no newline\n\nE");
}

use ken_core::error::Error as LibError;
use ken_core::memory::{check_memory_write, memory_description, new_memory, replaced_memory, WriteMode};

#[test]
fn a_write_needs_a_valid_slug_and_the_right_presence() {
    assert!(check_memory_write("style", WriteMode::Create, false).is_ok());
    assert!(check_memory_write("style", WriteMode::Replace, true).is_ok());
    match check_memory_write("style", WriteMode::Create, true) {
        Err(LibError::Other(m)) => assert_eq!(m, "a memory named 'style' already exists"),
        other => panic!("unexpected {other:?}"),
    }
    match check_memory_write("style", WriteMode::Replace, false) {
        Err(LibError::Other(m)) => assert_eq!(m, "no memory named 'style' exists to replace"),
        other => panic!("unexpected {other:?}"),
    }
    assert!(check_memory_write("../x", WriteMode::Create, false).is_err());
}

#[test]
fn a_new_memory_is_dated_today_and_described_by_its_first_line() {
    let m = new_memory("style", "  Prefer tabs.\nAlways.  \n", "2026-07-01");
    assert_eq!(m.body, "Prefer tabs.\nAlways.");
    assert_eq!(m.description, "Prefer tabs.");
    assert_eq!((m.created.as_str(), m.updated.as_str()), ("2026-07-01", "2026-07-01"));
    assert!(m.projects.is_empty());
}

#[test]
fn a_replace_swaps_the_body_and_bumps_updated() {
    let m = new_memory("style", "Prefer tabs.", "2026-07-01");
    let r = replaced_memory(m, " Prefer spaces. ", "2026-07-15");
    assert_eq!(r.body, "Prefer spaces.");
    assert_eq!(r.created, "2026-07-01");
    assert_eq!(r.updated, "2026-07-15");
    let hand_made = Memory {
        slug: "x".to_string(),
        description: "d".to_string(),
        projects: vec![],
        created: " ".to_string(),
        updated: String::new(),
        body: "b".to_string(),
    };
    // Only the body and `updated` change; a blank `created` stays blank.
    assert_eq!(replaced_memory(hand_made, "c", "2026-07-15").created, " ");
}

#[test]
fn a_blank_description_falls_back_to_the_first_line() {
    assert_eq!(memory_description("  ", "\n# Heading\nmore"), first_line("\n# Heading\nmore"));
    assert_eq!(memory_description("Declared", "body"), "Declared");
}
