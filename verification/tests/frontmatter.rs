use std::path::Path;

use ken_core::pipeline::validate::validate_pipeline;
use ken_core::pipeline::{
    frontmatter_entries, manifest_from_frontmatter, parse_artifact_manifest, parse_pipeline, parse_run,
    run_from_frontmatter, scan_runs, FmEntry, FmValue, Kickoff, RunOutcome, Runner, DEFAULT_BOUNCE_CAP,
    DEFAULT_CONCURRENCY_CAP, DEFAULT_PIPELINE_MD,
};

fn stem(path: &str) -> String {
    Path::new(path).file_stem().unwrap().to_string_lossy().into_owned()
}

fn pipeline_at(path: &str, raw: &str) -> ken_core::pipeline::Pipeline {
    parse_pipeline(path, &stem(path), raw)
}

/// A 26-character Crockford id with a recognisable tail.
fn uid(tag: char) -> String {
    format!("01J0000000000000000000000{tag}")
}

#[test]
fn caps_default_to_one_and_three_when_absent() {
    let p = pipeline_at("/ws/mini.md", "---\nid: mini\nlanes:\n  - id: a\n    maps_to: todo\n---\n");
    assert_eq!(p.concurrency_cap, DEFAULT_CONCURRENCY_CAP);
    assert_eq!(p.bounce_cap, DEFAULT_BOUNCE_CAP);
    assert_eq!(DEFAULT_CONCURRENCY_CAP, 1);
    assert_eq!(DEFAULT_BOUNCE_CAP, 3);
}

#[test]
fn kickoff_defaults_to_confirm_with_an_agent_and_manual_without() {
    let p = pipeline_at(
        "/ws/x.md",
        "---\nid: x\nlanes:\n  - id: a\n    maps_to: todo\n  - id: b\n    maps_to: doing\n    agent: bob\n---\n",
    );
    assert_eq!(p.lane("a").unwrap().kickoff, Kickoff::Manual);
    assert_eq!(p.lane("b").unwrap().kickoff, Kickoff::Confirm);
}

#[test]
fn default_pipeline_scaffold_reproduces_d1s_twelve_lanes() {
    let p = pipeline_at("/ws/.ken-workspace/pipelines/default.md", DEFAULT_PIPELINE_MD);
    let ids: Vec<&str> = p.lanes.iter().map(|l| l.id.as_str()).collect();
    assert_eq!(
        ids,
        vec![
            "ideas",
            "backlog",
            "todo",
            "investigation",
            "refinement",
            "programmer",
            "tester",
            "architect",
            "qa",
            "signoff",
            "documentation",
            "blocked",
        ]
    );
    assert!(p.blocked_lane().is_some());
    assert!(p.human_lane().is_some());
    let known = vec![true; p.lanes.len()];
    assert!(validate_pipeline(&p, &known).is_empty(), "{:?}", validate_pipeline(&p, &known));
    assert!(!p.auto, "ships auto:false (D6)");
}

#[test]
fn parse_run_falls_back_to_the_file_stem_when_id_is_absent() {
    let text = "---\nticket: T1\noutcome: queued\n---\n\nreport body\n";
    let path = "/ws/.ken-workspace/runs/2026-08/RUN123.md";
    let parsed = parse_run(&stem(path), text);
    assert_eq!(parsed.id, "RUN123");
    assert_eq!(parsed.ticket, "T1");
    assert_eq!(parsed.outcome, Some(RunOutcome::Queued));
    assert_eq!(parsed.report, "report body");
}

fn run_text(id: &str, ticket: &str, outcome: &str) -> String {
    format!(
        "---\nid: {id}\nticket: {ticket}\npipeline: default\nlane: programmer\nagent: coder\nmodel: ''\nscope: []\nverify: ''\nstarted: '2026-08-03T09:00:00Z'\nended: ''\noutcome: {outcome}\nartifacts: []\n---\n\n"
    )
}

#[test]
fn scan_runs_parses_every_file_pair_in_order() {
    let a = run_text(&uid('A'), &uid('X'), "running");
    let b = run_text(&uid('B'), &uid('Y'), "queued");
    let files = vec![(stem("/ws/a.md"), a), (stem("/ws/b.md"), b)];
    let scanned = scan_runs(&files);
    assert_eq!(scanned.len(), 2);
    assert_eq!(scanned[0].id, uid('A'));
    assert_eq!(scanned[1].id, uid('B'));
}

#[test]
fn a_run_reads_every_field_trimmed_and_its_lists() {
    let text = "---\nid: '  R1 '\nticket: T1\nscope:\n  - src/a.rs\n  - 7\n  - src/b.rs\noutcome: ' PASS '\nartifacts: [out.md]\n---\n  the report  \n";
    let r = parse_run("file", text);
    assert_eq!(r.id, "R1");
    assert_eq!(r.scope, vec!["src/a.rs".to_string(), "src/b.rs".to_string()]);
    assert_eq!(r.outcome_raw, "PASS");
    assert_eq!(r.outcome, Some(RunOutcome::Pass));
    assert_eq!(r.artifacts, vec!["out.md".to_string()]);
    assert_eq!(r.report, "the report");
}

#[test]
fn a_malformed_frontmatter_reads_as_no_keys() {
    let r = parse_run("stem", "---\nid: [unclosed\n---\nbody\n");
    assert_eq!(r.id, "stem");
    assert_eq!(r.ticket, "");
    assert_eq!(r.outcome, None);
    assert_eq!(r.report, "body");
    // No frontmatter at all: the whole text is the body.
    let plain = parse_run("p", "just text\n");
    assert_eq!((plain.id.as_str(), plain.report.as_str()), ("p", "just text"));
}

#[test]
fn scalars_are_read_as_yaml_writes_them() {
    let fm = frontmatter_entries("n: 5\nflag: true\ns: hi\nnone: ~\nlist: [a, 2]\n");
    let keys: Vec<&str> = fm.iter().map(|e| e.key.as_str()).collect();
    assert_eq!(keys, vec!["n", "flag", "s", "none", "list"]);
    assert_eq!(fm[0].value, FmValue::Number(Some(5), "5".to_string()));
    assert_eq!(fm[1].value, FmValue::Bool(true));
    assert_eq!(fm[2].value, FmValue::Text("hi".to_string()));
    assert_eq!(fm[3].value, FmValue::Null);
    assert!(frontmatter_entries("- not a mapping\n").is_empty());
}

#[test]
fn quoted_flags_and_counts_still_read() {
    let p = pipeline_at(
        "/ws/q.md",
        "---\nauto: ' TRUE '\nconcurrency_cap: '2'\nbounce_cap: 5\nlanes:\n  - id: r\n    human: 'true'\n    agent: none\n    runner: Command\n    kickoff: ' Auto '\n  - just a string\n---\nbody\n",
    );
    assert_eq!(p.id, "q");
    assert_eq!(p.name, "q");
    assert!(p.auto);
    assert_eq!((p.concurrency_cap, p.bounce_cap), (2, 5));
    assert_eq!(p.lanes.len(), 1);
    let l = &p.lanes[0];
    assert!(l.human);
    assert_eq!(l.agent, None);
    assert_eq!(l.runner, Runner::Command);
    assert_eq!(l.kickoff, Kickoff::Auto);
    assert_eq!(l.kickoff_raw, "Auto");
    assert_eq!(p.body, "body");
    assert_eq!(p.path, "/ws/q.md");
}

#[test]
fn a_forged_durable_key_is_dropped_and_the_ticket_falls_back_to_the_folder() {
    let forged = "---\ndurable: true\nticket: T1\ncreated: 2026-08-03\nexpires: 2026-09-02\nfiles: []\n---\n\nbody\n";
    let parsed = parse_artifact_manifest("x", forged);
    assert!(!parsed.durable());
    assert_eq!(parsed.ticket, "T1");
    assert_eq!((parsed.created.as_str(), parsed.expires.as_str()), ("2026-08-03", "2026-09-02"));
    assert!(parsed.files.is_empty());
    let fm = vec![FmEntry { key: "files".to_string(), value: FmValue::Sequence(vec![FmValue::Text("demo.mp4".to_string())]) }];
    let m = manifest_from_frontmatter("T9", &fm);
    assert_eq!(m.ticket, "T9");
    assert_eq!(m.files, vec!["demo.mp4".to_string()]);
}

#[test]
fn a_run_from_given_keys() {
    let fm = vec![FmEntry { key: "lane".to_string(), value: FmValue::Text(" qa ".to_string()) }];
    let r = run_from_frontmatter("S", &fm, "");
    assert_eq!((r.id.as_str(), r.lane.as_str(), r.report.as_str()), ("S", "qa", ""));
}
