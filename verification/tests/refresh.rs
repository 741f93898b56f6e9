use std::collections::HashMap;

use ken_core::recipe::{default_rules, Mode, Recipe, Refresh};
use ken_core::refresh::{
    compose_prompt, in_sources, plan, removal_targets, staging_dir, summary_line, triggers, under_output, IndexedFile,
    REMOVED_MANIFEST,
};

fn recipe(mode: Mode, output: &str) -> Recipe {
    Recipe {
        slug: "people".into(),
        name: "People".into(),
        description: String::new(),
        sources: vec!["notes".into()],
        output: output.into(),
        mode,
        refresh: Refresh::OnChange,
        rules: None,
        instruction: "Extract people.".into(),
    }
}

fn file(rel: &str, mtime: i64) -> IndexedFile {
    IndexedFile { rel_path: rel.into(), mtime }
}

fn corpus() -> Vec<IndexedFile> {
    vec![file("notes/a.md", 100), file("notes/b.md", 100), file("elsewhere/c.md", 100)]
}

#[test]
fn first_run_covers_corpus_and_prompt_mentions_staging() {
    let r = recipe(Mode::Single, "knowledge/People.md");
    let plan = plan("/p", &r, &default_rules(), &corpus(), None, false, &[], HashMap::new()).unwrap();
    assert!(plan.first_run);
    assert_eq!(plan.changed.len(), 2);
    assert!(plan.prompt.contains("STAGING_DIR="));
    assert!(plan.prompt.contains("notes/a.md"));
    assert!(plan.prompt.contains("first run"));
    assert!(plan.prompt.contains("Extract people."));
    assert_eq!(plan.staging, "/p/.ken/.staging/people");
}

#[test]
fn incremental_plan_lists_only_changed_files() {
    let r = recipe(Mode::Single, "knowledge/People.md");
    let outputs = vec!["knowledge/People.md".to_string()];
    // Nothing changed since the last success: no plan.
    assert!(plan("/p", &r, &default_rules(), &corpus(), Some(110), false, &outputs, HashMap::new()).is_none());
    // force_full still yields a full pass.
    let p = plan("/p", &r, &default_rules(), &corpus(), Some(110), true, &outputs, HashMap::new()).unwrap();
    assert_eq!(p.changed.len(), 2);
    assert!(p.prompt.contains("Full pass"));
    // One source touched after the last success.
    let files = vec![file("notes/a.md", 100), file("notes/b.md", 210)];
    let p = plan("/p", &r, &default_rules(), &files, Some(110), false, &outputs, HashMap::new()).unwrap();
    assert_eq!(p.changed, vec!["notes/b.md".to_string()]);
    assert!(p.prompt.contains("Only these files changed"));
    assert!(p.prompt.contains("Read these current documents FIRST"));
    assert!(!p.first_run);
}

#[test]
fn own_outputs_do_not_trigger_or_feed() {
    let r = recipe(Mode::Single, "knowledge/People.md");
    assert!(!triggers(&r, &["knowledge/People.md".into()]));
    assert!(triggers(&r, &["notes/a.md".into()]));
    assert!(!triggers(&r, &["elsewhere/c.md".into()]));
}

#[test]
fn outputs_and_sources_match_whole_path_components() {
    let mut r = recipe(Mode::Collection, "/people/");
    r.sources = vec!["/notes/".into()];
    assert!(under_output(&r, "people"));
    assert!(under_output(&r, "people/priya.md"));
    assert!(!under_output(&r, "peoples/priya.md"));
    assert!(in_sources(&r, "notes/a.md"));
    assert!(!in_sources(&r, "notes-old/a.md"));
    r.sources = vec![];
    assert!(in_sources(&r, "anything/at/all.md"));
    assert!(!in_sources(&r, "people/priya.md"));
}

#[test]
fn prompt_is_exact_for_a_single_document_first_run() {
    let r = recipe(Mode::Single, "knowledge/People.md");
    let p = compose_prompt(&r, &default_rules(), &["notes/a.md".to_string()], true, &[], "/s");
    let expected = "You are Ken's ingest runner, refreshing the structured document(s) for the ingest \"People\".\n\n\
## Instruction\n\nExtract people.\n\n## Rules (non-negotiable)\n\n\
- The current output documents are canonical. Update only what the changed source material implies; keep everything else exactly as it is.\n\
- Human edits in the current outputs must be preserved, even where they disagree with your own phrasing.\n\
- Never ask the user questions. Where the data is ambiguous, make the reasonable assumption and record it in an \"Open questions\" section of the output document.\n\
- Write ONLY inside the staging directory named below. Do not modify any other file.\n\
- Every file you write must be the complete document, not a fragment or diff.\n\
- (For reference: changes above 20% of a document are held for human review before being applied.)\n\n\
## Source material (folders: notes)\n\n\
Full pass \u{2014} read all source material:\n- notes/a.md\n\n\
## Current output\n\n\
None yet \u{2014} this is the first run; create the output from scratch.\n\n\
## Where to write\n\n\
STAGING_DIR=/s\n\
This ingest maintains ONE document: `knowledge/People.md`.\nWrite the complete updated document to `/s/knowledge/People.md`.\n";
    assert_eq!(p, expected);
}

#[test]
fn collection_prompt_names_the_removal_manifest() {
    let r = recipe(Mode::Collection, "people//");
    let p = compose_prompt(&r, &default_rules(), &[], false, &["people/a.md".to_string()], "/s");
    assert!(p.contains("one markdown file per entity in `people/`"));
    assert!(p.contains(&format!("`/s/people/{REMOVED_MANIFEST}`.")));
    assert!(p.contains("Read these current documents FIRST; they are canonical:\n- people/a.md"));
}

#[test]
fn summary_lines_count_documents() {
    assert_eq!(summary_line(0, 0), "No changes were needed.");
    assert_eq!(summary_line(1, 0), "Updated 1 document.");
    assert_eq!(summary_line(3, 0), "Updated 3 documents.");
    assert_eq!(summary_line(0, 1), "Removed 1 document.");
    assert_eq!(summary_line(2, 1), "Updated 2 and removed 1 documents.");
    assert_eq!(staging_dir("/p", "people"), "/p/.ken/.staging/people");
}

#[test]
fn removal_manifest_lines_name_files_under_the_output() {
    let r = recipe(Mode::Collection, "/knowledge/people/");
    let manifest = "old.md\n  knowledge/people/gone.md  \n\n/slash.md\r\nknowledge/people/knowledge/people/twice.md\n";
    assert_eq!(
        removal_targets(&r, manifest),
        vec![
            "knowledge/people/old.md".to_string(),
            "knowledge/people/gone.md".to_string(),
            "knowledge/people/slash.md".to_string(),
            "knowledge/people/twice.md".to_string(),
        ]
    );
    assert!(removal_targets(&r, "").is_empty());
    assert!(removal_targets(&r, "  \n\t\n").is_empty());
}
