use std::path::{Path, PathBuf};

use ken_core::paths::CONFIG_DIR;
use ken_core::pipeline::{
    admit_start, artifact_manifest_path, artifact_ticket_dir, artifacts_dir, blocked_state,
    check_cycle, in_dedupe_scope, is_artifact_expired, is_retry_cap_reason, matches_block_filter,
    new_artifact_manifest, pipeline_path, pipelines_dir, propose_idea, render_digest_markdown,
    root_blockers, run_month, run_month_dir, run_path, running_runs, runs_dir,
    scaffold_default_pipeline, shift_iso_date, ticket_fields, ticket_pipeline, Admission,
    AdvanceOutcome, ArtifactManifest, AwaitingReviewEntry, BlockGraph, BlockedDigestEntry,
    BlockedFilter, ConfirmReason, Digest, EntryKind, FmEntry, FmValue, IdeaEntry, IdeaRefusal,
    Kickoff, Lane, MovedEntry, Pipeline, RefusalReason, RunOutcome, RunRecord, Runner, Target, Task,
    UnblockedDigestEntry, DEFAULT_PIPELINE_MD,
};

/// A 26-character Crockford id with a recognisable tail.
fn uid(tag: char) -> String {
    format!("01J{}{tag}", "0".repeat(22))
}

fn text(key: &str, value: &str) -> FmEntry {
    FmEntry { key: key.to_string(), value: FmValue::Text(value.to_string()) }
}

fn list(key: &str, items: &[&str]) -> FmEntry {
    FmEntry { key: key.to_string(), value: FmValue::Sequence(items.iter().map(|s| FmValue::Text(s.to_string())).collect()) }
}

fn bare(id: &str, status: &str, extra: Vec<FmEntry>) -> Task {
    Task {
        id: id.to_string(),
        title: format!("Ticket {id}"),
        status_raw: status.to_string(),
        project: "ken".to_string(),
        created: String::new(),
        updated: String::new(),
        lane: None,
        extra,
    }
}

/// A pipeline ticket with a full boundary (`scope` + `verify`).
fn ticket(id: &str, status: &str, mut extra: Vec<FmEntry>) -> Task {
    let mut m = vec![
        text("pipeline", "default"),
        list("scope", &["crates/ken-core/**"]),
        text("verify", "cargo test -p ken-core"),
    ];
    m.append(&mut extra);
    bare(id, status, m)
}

/// The same, with no `scope`/`verify`.
fn unbounded(id: &str, status: &str, mut extra: Vec<FmEntry>) -> Task {
    let mut m = vec![text("pipeline", "default")];
    m.append(&mut extra);
    bare(id, status, m)
}

fn lane(id: &str, agent: Option<&str>, kickoff: Kickoff) -> Lane {
    Lane {
        id: id.to_string(),
        name: id.to_string(),
        maps_to_raw: "doing".to_string(),
        agent: agent.map(str::to_string),
        model: None,
        kickoff,
        kickoff_raw: kickoff.as_str().to_string(),
        on_pass: None,
        on_fail: None,
        writes_code: false,
        human: false,
        terminal: false,
        generative: false,
        blocked: false,
        runner: Runner::Mcp,
    }
}

fn pipe(auto: bool) -> Pipeline {
    let mut signoff = lane("signoff", None, Kickoff::Manual);
    signoff.human = true;
    let mut blocked = lane("blocked", None, Kickoff::Manual);
    blocked.blocked = true;
    Pipeline {
        id: "default".to_string(),
        name: "Standard delivery pipeline".to_string(),
        auto,
        concurrency_cap: 1,
        bounce_cap: 3,
        lanes: vec![
            lane("todo", None, Kickoff::Manual),
            lane("programmer", Some("programmer"), if auto { Kickoff::Auto } else { Kickoff::Confirm }),
            lane("tester", Some("tester"), Kickoff::Confirm),
            signoff,
            blocked,
        ],
        body: String::new(),
        path: "/ws/.ken-workspace/pipelines/default.md".to_string(),
    }
}

fn run(id: &str, ticket_id: &str, outcome: RunOutcome) -> RunRecord {
    RunRecord {
        id: id.to_string(),
        ticket: ticket_id.to_string(),
        pipeline: "default".to_string(),
        lane: "programmer".to_string(),
        agent: "programmer".to_string(),
        model: "sonnet".to_string(),
        scope: vec!["crates/ken-core/**".to_string()],
        verify: "cargo test -p ken-core".to_string(),
        started: "2026-08-01T10:00:00Z".to_string(),
        ended: String::new(),
        outcome: Some(outcome),
        outcome_raw: outcome.as_str().to_string(),
        artifacts: Vec::new(),
        report: "in progress".to_string(),
    }
}

#[test]
fn block_filters_answer_what_is_stuck() {
    let dep = uid('D');
    let blocked = ticket(&uid('A'), "blocked", vec![list("blocked_by", &[&dep]), text("return_lane", "programmer")]);
    let reasoned = ticket(&uid('B'), "blocked", vec![text("block_reason", "upstream 2.0"), text("return_lane", "tester")]);
    let free = ticket(&uid('C'), "programmer", vec![]);
    let freed = ticket(&uid('E'), "programmer", vec![text("return_lane", "programmer")]);

    let by = |f: BlockedFilter, t: &Task| matches_block_filter(t, &f);
    assert!(by(BlockedFilter::Blocked, &blocked));
    assert!(by(BlockedFilter::Blocked, &reasoned));
    assert!(!by(BlockedFilter::Blocked, &free));
    assert!(by(BlockedFilter::NotBlocked, &free));
    assert!(by(BlockedFilter::By(dep.clone()), &blocked));
    assert!(!by(BlockedFilter::By(dep), &reasoned));
    assert!(by(BlockedFilter::NewlyUnblocked, &freed));
    assert!(!by(BlockedFilter::NewlyUnblocked, &blocked));
    assert!(!by(BlockedFilter::NewlyUnblocked, &free));
    assert!(by(BlockedFilter::Any, &free) && by(BlockedFilter::Any, &blocked));

    // The ticket's pipeline id is read off its frontmatter.
    assert_eq!(ticket_pipeline(&free).as_deref(), Some("default"));
}

#[test]
fn ticket_fields_read_every_pipeline_key_off_the_extra_flatten() {
    let t = ticket(
        &uid('A'),
        "qa",
        vec![
            text("model", "opus"),
            text("agent", "qa"),
            text("bounces", "2"),
            text("return_lane", "programmer"),
            text("block_reason", "waiting"),
            text("blocked_at", "2026-08-01T09:00:00Z"),
            text("parent", "P1"),
            text("spawned_by", "S1"),
            text("origin", "generated"),
            list("projects", &["alpha", "beta"]),
            text("target", "tauri"),
        ],
    );
    let f = ticket_fields(&t);
    assert_eq!(f.pipeline.as_deref(), Some("default"));
    assert_eq!(f.model.as_deref(), Some("opus"));
    assert_eq!(f.agent.as_deref(), Some("qa"));
    assert_eq!(f.scope, vec!["crates/ken-core/**".to_string()]);
    assert_eq!(f.verify.as_deref(), Some("cargo test -p ken-core"));
    assert_eq!(f.bounces, 2);
    assert_eq!(f.return_lane.as_deref(), Some("programmer"));
    assert_eq!(f.block_reason.as_deref(), Some("waiting"));
    assert_eq!(f.blocked_at.as_deref(), Some("2026-08-01T09:00:00Z"));
    assert_eq!(f.parent.as_deref(), Some("P1"));
    assert_eq!(f.spawned_by.as_deref(), Some("S1"));
    assert_eq!(f.origin.as_deref(), Some("generated"));
    assert_eq!(f.projects, vec!["alpha".to_string(), "beta".to_string()]);
    assert_eq!(f.target, Target::Tauri);
    assert_eq!(ticket_fields(&ticket(&uid('B'), "todo", vec![])).target, Target::Walkthrough);
}

fn graph(edges: &[(char, &[char])]) -> BlockGraph {
    let mut g = BlockGraph::new();
    for (t, deps) in edges {
        let d: Vec<String> = deps.iter().map(|c| uid(*c)).collect();
        g.insert(&uid(*t), &d);
    }
    g
}

#[test]
fn cycle_detection_table() {
    let a = 'A';
    let b = 'B';
    let c = 'C';
    let d = 'D';
    let e = 'E';
    let f = 'F';

    let g0 = BlockGraph::new();
    assert!(check_cycle(&g0, &uid(a), &uid(a)).is_err(), "self-edge");

    let g1 = graph(&[(a, &[b])]);
    let err = check_cycle(&g1, &uid(b), &uid(a)).unwrap_err();
    assert_eq!(err.path, vec![uid(b), uid(a), uid(b)]);
    assert!(err.render().contains(" → "));

    let g2 = graph(&[(a, &[b]), (b, &[c])]);
    let err = check_cycle(&g2, &uid(c), &uid(a)).unwrap_err();
    assert_eq!(err.path, vec![uid(c), uid(a), uid(b), uid(c)]);

    let g3 = graph(&[(a, &[b]), (b, &[c]), (c, &[d]), (d, &[e]), (e, &[f])]);
    let err = check_cycle(&g3, &uid(f), &uid(a)).unwrap_err();
    assert_eq!(err.path, vec![uid(f), uid(a), uid(b), uid(c), uid(d), uid(e), uid(f)]);

    let g4 = graph(&[(a, &[b]), (b, &[d]), (c, &[d])]);
    assert!(check_cycle(&g4, &uid(a), &uid(c)).is_ok(), "legal diamond must be allowed");
    let g5 = graph(&[(a, &[b, c]), (b, &[d]), (c, &[d])]);
    assert!(check_cycle(&g5, &uid(d), &uid(a)).is_err());

    assert!(check_cycle(&g3, &uid(a), &uid(f)).is_ok(), "A→F is a shortcut, not a cycle");
    let g6 = graph(&[(a, &[b])]);
    assert!(check_cycle(&g6, &uid(c), &uid(d)).is_ok());
}

#[test]
fn cycle_walk_terminates_on_a_graph_that_is_already_cyclic() {
    let g = graph(&[('A', &['B']), ('B', &['A'])]);
    let _ = check_cycle(&g, &uid('C'), &uid('A'));
}

#[test]
fn block_graph_is_built_from_the_board() {
    let dep = uid('D');
    let t = ticket(&uid('A'), "blocked", vec![list("blocked_by", &[&dep]), text("return_lane", "tester")]);
    let free = ticket(&uid('C'), "todo", vec![]);
    let g = BlockGraph::from_tasks(&[t, free]);
    assert_eq!(g.blockers(&uid('A')), vec![dep]);
    assert!(g.blockers(&uid('C')).is_empty());
}

#[test]
fn pipeline_paths_follow_the_workspace_convention() {
    let root = "/ws";
    assert!(Path::new(&pipelines_dir(root)).ends_with("pipelines"));
    assert_eq!(
        PathBuf::from(pipelines_dir(root)),
        Path::new("/ws").join(CONFIG_DIR).join("pipelines")
    );
    assert!(Path::new(&pipeline_path(root, "default")).ends_with("default.md"));
}

#[test]
fn run_paths_follow_the_monthly_ledger_convention() {
    let root = "/ws";
    assert_eq!(PathBuf::from(runs_dir(root)), Path::new("/ws").join(CONFIG_DIR).join("runs"));
    assert_eq!(
        PathBuf::from(run_month_dir(root, "2026-08")),
        PathBuf::from(runs_dir(root)).join("2026-08")
    );
    assert_eq!(
        PathBuf::from(run_path(root, "2026-08", &uid('A'))),
        PathBuf::from(runs_dir(root)).join("2026-08").join(format!("{}.md", uid('A')))
    );
    assert_eq!(run_month("2026-08-03T10:00:00Z"), "2026-08");
    assert_eq!(run_month("bad"), "bad");
}

#[test]
fn run_month_cuts_on_a_character_boundary_only() {
    // Seven bytes that end inside a multi-byte character cannot be cut.
    assert_eq!(run_month("2026-0é-03"), "2026-0é-03");
    assert_eq!(run_month("2026-08"), "2026-08");
    assert_eq!(run_month("é2026-08-03"), "é2026-");
}

#[test]
fn propose_idea_refuses_without_a_citation() {
    assert_eq!(
        propose_idea("A new idea", "body", "", "alpha", &[], "default").unwrap_err(),
        IdeaRefusal::MissingCitation
    );
    assert_eq!(
        propose_idea("A new idea", "body", "   ", "alpha", &[], "default").unwrap_err(),
        IdeaRefusal::MissingCitation
    );
}

#[test]
fn propose_idea_refuses_an_empty_title() {
    assert_eq!(
        propose_idea("  ", "body", &uid('S'), "alpha", &[], "default").unwrap_err(),
        IdeaRefusal::EmptyTitle
    );
}

#[test]
fn propose_idea_builds_a_trimmed_candidate() {
    let idea = propose_idea(" A new idea ", " body ", &uid('S'), "alpha", &["beta".to_string()], "default")
        .unwrap();
    assert_eq!(idea.title, "A new idea");
    assert_eq!(idea.body, "body");
    assert_eq!(idea.spawned_by, uid('S'));
    assert_eq!(idea.projects, vec!["beta".to_string()]);
}

#[test]
fn dedupe_scope_is_project_plus_linked_projects() {
    assert!(in_dedupe_scope("alpha", "alpha", &[]));
    assert!(in_dedupe_scope("alpha", "beta", &["beta", "gamma"]));
    assert!(!in_dedupe_scope("alpha", "delta", &["beta", "gamma"]));
}

#[test]
fn dedupe_scope_ignores_case_and_surrounding_space() {
    assert!(in_dedupe_scope("Alpha", " alpha ", &[]));
    assert!(in_dedupe_scope("alpha", "GAMMA", &["beta", " gamma"]));
}

#[test]
fn artifact_paths_stay_outside_any_member_repo() {
    let root = "/ws";
    assert_eq!(PathBuf::from(artifacts_dir(root)), Path::new("/ws").join(CONFIG_DIR).join("artifacts"));
    let id = uid('T');
    assert_eq!(PathBuf::from(artifact_ticket_dir(root, &id)), PathBuf::from(artifacts_dir(root)).join(&id));
    assert_eq!(
        PathBuf::from(artifact_manifest_path(root, &id)),
        PathBuf::from(artifacts_dir(root)).join(&id).join("manifest.md")
    );
}

#[test]
fn shift_iso_date_adds_days_across_month_and_year_boundaries() {
    assert_eq!(shift_iso_date("2026-08-03", 30).as_deref(), Some("2026-09-02"));
    assert_eq!(shift_iso_date("2025-12-15", 30).as_deref(), Some("2026-01-14"));
    assert_eq!(shift_iso_date("2026-08-03", -1).as_deref(), Some("2026-08-02"));
    assert_eq!(shift_iso_date("not-a-date", 30), None);
}

#[test]
fn shift_iso_date_handles_leap_days_and_month_range() {
    assert_eq!(shift_iso_date("2024-02-28", 1).as_deref(), Some("2024-02-29"));
    assert_eq!(shift_iso_date("2023-02-28", 1).as_deref(), Some("2023-03-01"));
    assert_eq!(shift_iso_date("2000-03-01", -1).as_deref(), Some("2000-02-29"));
    assert_eq!(shift_iso_date("0000-01-01", -1).as_deref(), Some("-001-12-31"));
    assert_eq!(shift_iso_date("2026-13-01", 1), None);
    assert_eq!(shift_iso_date("2026-01-32", 1), None);
    assert_eq!(shift_iso_date("2026-01-01", 0).as_deref(), Some("2026-01-01"));
}

#[test]
fn new_artifact_manifest_defaults_expires_to_thirty_days_out() {
    let m = new_artifact_manifest(&uid('T'), "2026-08-03", vec!["walkthrough.md".to_string()]);
    assert_eq!(m.expires, "2026-09-02");
    assert!(!m.durable());
    let odd = new_artifact_manifest(&uid('T'), "someday", vec![]);
    assert_eq!(odd.expires, "someday");
}

#[test]
fn artifact_expiry_is_a_pure_predicate() {
    let m = ArtifactManifest {
        ticket: uid('T'),
        created: "2026-08-01".to_string(),
        expires: "2026-08-31".to_string(),
        files: vec![],
    };
    assert!(!is_artifact_expired(&m, "2026-08-31"), "exactly on expires: not yet");
    assert!(is_artifact_expired(&m, "2026-09-01"), "the day after: expired");
    assert!(!is_artifact_expired(&m, "2026-08-15"), "well before: not expired");
    assert!(!is_artifact_expired(&m, "not-a-date"), "malformed today: never guess");
}

#[test]
fn root_blockers_walks_a_three_deep_chain_to_the_leaf() {
    let mut g = BlockGraph::new();
    g.insert("A", &["B".to_string()]);
    g.insert("B", &["C".to_string()]);
    g.insert("C", &[]);
    assert_eq!(root_blockers(&g, "A"), vec!["C".to_string()]);
    assert_ne!(root_blockers(&g, "A"), vec!["B".to_string()], "must not report the nearest blocker");
}

#[test]
fn root_blockers_deduplicates_a_diamond() {
    let mut g = BlockGraph::new();
    g.insert("A", &["B".to_string(), "C".to_string()]);
    g.insert("B", &["D".to_string()]);
    g.insert("C", &["D".to_string()]);
    g.insert("D", &[]);
    assert_eq!(root_blockers(&g, "A"), vec!["D".to_string()]);
}

#[test]
fn root_blockers_terminates_on_an_already_cyclic_graph() {
    let mut g = BlockGraph::new();
    g.insert("A", &["B".to_string()]);
    g.insert("B", &["A".to_string()]);
    assert!(root_blockers(&g, "A").is_empty());
}

#[test]
fn root_blockers_reports_every_leaf_once_by_identity() {
    let mut g = BlockGraph::new();
    g.insert("A", &["B".to_string(), "c".to_string()]);
    g.insert("B", &["C ".to_string(), "E".to_string()]);
    let roots = root_blockers(&g, "a");
    assert_eq!(roots.len(), 2);
    assert!(roots.iter().any(|r| r.trim().eq_ignore_ascii_case("c")));
    assert!(roots.iter().any(|r| r == "E"));
}

#[test]
fn render_digest_markdown_orders_sections_and_handles_empty() {
    let d = Digest::default();
    assert_eq!(
        render_digest_markdown(&d, "2026-08-03"),
        "# Pipeline digest — 2026-08-03\n\nNothing to report.\n"
    );

    let mut d = Digest::default();
    d.awaiting_review.push(AwaitingReviewEntry {
        ticket_id: "A".into(),
        title: "Review me".into(),
        updated: "2026-08-02".into(),
        run_count: 1,
    });
    d.newly_unblocked.push(UnblockedDigestEntry {
        ticket_id: "B".into(),
        title: "Freed".into(),
        return_lane: "programmer".into(),
    });
    d.blocked.push(BlockedDigestEntry {
        ticket_id: "C".into(),
        title: "Stuck".into(),
        blocked_at: Some("2026-08-01".into()),
        root_blockers: vec!["D".into()],
        block_reason: None,
        run_count: 0,
    });
    d.moved_today.push(MovedEntry {
        ticket_id: "E".into(),
        title: "Moved".into(),
        lane: "tester".into(),
        run_count: 2,
    });
    d.new_ideas.push(IdeaEntry { ticket_id: "F".into(), title: "Idea".into(), spawned_by: Some("E".into()) });
    d.stale_runs.push(run(&uid('S'), "E", RunOutcome::Running));

    let md = render_digest_markdown(&d, "2026-08-03");
    let idx = |needle: &str| md.find(needle).unwrap_or_else(|| panic!("missing '{needle}' in {md}"));
    let review = idx("## Awaiting your review");
    let unblocked_i = idx("## Unblocked overnight");
    let blocked_i = idx("## Blocked");
    let moved_i = idx("## Moved today");
    let ideas_i = idx("## New ideas");
    let stale_i = idx("## Stale runs");
    assert!(review < unblocked_i);
    assert!(unblocked_i < blocked_i);
    assert!(blocked_i < moved_i);
    assert!(moved_i < ideas_i);
    assert!(ideas_i < stale_i);
    assert!(md.contains("root blocker(s): D"));
}

#[test]
fn render_digest_markdown_writes_each_line_exactly() {
    let mut d = Digest::default();
    d.blocked.push(BlockedDigestEntry {
        ticket_id: "C".into(),
        title: "Stuck".into(),
        blocked_at: None,
        root_blockers: vec!["D".into(), "G".into()],
        block_reason: Some("vendor".into()),
        run_count: 3,
    });
    assert_eq!(
        render_digest_markdown(&d, "2026-08-03"),
        "# Pipeline digest — 2026-08-03\n\n## Blocked\n\n- **Stuck** (C) — blocked since unknown, root blocker(s): D, G — vendor, 3 run(s)\n\n"
    );
}

#[test]
fn scaffold_is_written_only_when_the_file_is_absent() {
    assert_eq!(scaffold_default_pipeline(true), None);
    assert_eq!(scaffold_default_pipeline(false), Some(DEFAULT_PIPELINE_MD));
}

#[test]
fn vocabularies_round_trip_case_insensitively() {
    for k in [Kickoff::Manual, Kickoff::Confirm, Kickoff::Auto] {
        assert_eq!(Kickoff::parse(&format!("  {} ", k.as_str().to_uppercase())), Some(k));
    }
    assert_eq!(Runner::parse("MCP"), Some(Runner::Mcp));
    assert_eq!(Target::parse(" none "), Some(Target::Walkthrough));
    assert_eq!(Target::default(), Target::Walkthrough);
    assert_eq!(RunOutcome::parse("Cancelled"), Some(RunOutcome::Cancelled));
    assert_eq!(AdvanceOutcome::parse("fail"), Some(AdvanceOutcome::Fail));
    assert_eq!(Kickoff::parse("sometimes"), None);
    assert!(RunOutcome::Running.is_live());
    assert!(!RunOutcome::Queued.is_live());
}

#[test]
fn running_runs_counts_only_live_records() {
    let runs = vec![
        run("1", "T", RunOutcome::Running),
        run("2", "T", RunOutcome::Queued),
        run("3", "T", RunOutcome::Running),
        run("4", "T", RunOutcome::Pass),
    ];
    assert_eq!(running_runs(&runs), 2);
    assert_eq!(running_runs(&[]), 0);
}

#[test]
fn retry_cap_reason_is_recognised_by_its_prefix() {
    assert!(is_retry_cap_reason("exceeded retry cap (4 bounces)"));
    assert!(is_retry_cap_reason("  Exceeded Retry Cap"));
    assert!(!is_retry_cap_reason("waiting on vendor"));
}

#[test]
fn a_blocked_ticket_is_refused_before_anything_else() {
    // Every switch flipped the dangerous way: auto lane, master switch
    // on, a free slot, and a full boundary.
    let p = pipe(true);
    let l = &p.lanes[1];
    let t = ticket(&uid('A'), "programmer", vec![list("blocked_by", &[&uid('D')]), text("return_lane", "programmer")]);
    for entry in [EntryKind::Kickoff, EntryKind::Claim, EntryKind::Unblock, EntryKind::AutoTransition] {
        match admit_start(&t, l, &p, &[], entry) {
            Admission::Refused { reason: RefusalReason::Blocked { return_lane, blocked_by, .. } } => {
                assert_eq!(return_lane.as_deref(), Some("programmer"));
                assert_eq!(blocked_by, vec![uid('D')]);
            }
            other => panic!("blocked ticket was not refused: {other:?}"),
        }
    }
    assert!(blocked_state(&t, &p).is_some());
    // Sitting in the blocked lane is a block too.
    let parked = ticket(&uid('B'), "blocked", vec![]);
    assert!(blocked_state(&parked, &p).unwrap().in_blocked_lane);
}

#[test]
fn an_unblocked_ticket_is_never_started() {
    let p = pipe(true);
    let l = &p.lanes[1];
    let t = ticket(&uid('A'), "programmer", vec![]);
    assert_eq!(
        admit_start(&t, l, &p, &[], EntryKind::Unblock),
        Admission::Confirm { reason: ConfirmReason::Unblocked }
    );
    // The same ticket arriving by auto-transition starts.
    assert_eq!(admit_start(&t, l, &p, &[], EntryKind::AutoTransition), Admission::Start);
}

#[test]
fn gates_caps_and_boundaries_decide_the_rest() {
    let p = pipe(false);
    let t = ticket(&uid('A'), "programmer", vec![]);
    // Confirm lane: a human kickoff is a confirmation, a claim starts.
    assert_eq!(
        admit_start(&t, &p.lanes[1], &p, &[], EntryKind::Kickoff),
        Admission::Confirm { reason: ConfirmReason::LaneGate }
    );
    assert_eq!(admit_start(&t, &p.lanes[1], &p, &[], EntryKind::Claim), Admission::Start);
    // The cap counts running records only.
    let busy = vec![run("R", "X", RunOutcome::Running), run("Q", "X", RunOutcome::Queued)];
    assert_eq!(
        admit_start(&t, &p.lanes[1], &p, &busy, EntryKind::Claim),
        Admission::Queued { running: 1, cap: 1 }
    );
    // No scope/verify: a confirmation naming what is missing.
    let u = unbounded(&uid('U'), "programmer", vec![]);
    assert_eq!(
        admit_start(&u, &p.lanes[1], &p, &[], EntryKind::Claim),
        Admission::Confirm { reason: ConfirmReason::MissingBoundary { scope: true, verify: true } }
    );
    // Human and holding lanes never run.
    assert_eq!(
        admit_start(&t, &p.lanes[3], &p, &[], EntryKind::Kickoff),
        Admission::Refused { reason: RefusalReason::HumanLane { lane: "signoff".into() } }
    );
    assert_eq!(
        admit_start(&t, &p.lanes[0], &p, &[], EntryKind::Kickoff),
        Admission::Refused { reason: RefusalReason::NoAgent { lane: "todo".into() } }
    );
    // A manual lane reached by auto-transition is refused.
    let mut manual = lane("manual", Some("agent"), Kickoff::Manual);
    manual.id = "manual".into();
    assert_eq!(
        admit_start(&t, &manual, &p, &[], EntryKind::AutoTransition),
        Admission::Refused { reason: RefusalReason::ManualLane { lane: "manual".into() } }
    );
    // An auto lane with the master switch off asks first.
    let auto_lane = lane("auto", Some("agent"), Kickoff::Auto);
    assert_eq!(
        admit_start(&t, &auto_lane, &p, &[], EntryKind::AutoTransition),
        Admission::Confirm { reason: ConfirmReason::AutoDisabled }
    );
}

#[test]
fn lanes_resolve_case_insensitively_and_blank_means_the_first() {
    let p = pipe(false);
    assert_eq!(ken_core::pipeline::resolve_lane(&p, " PROGRAMMER ").unwrap().id, "programmer");
    assert_eq!(ken_core::pipeline::resolve_lane(&p, "  ").unwrap().id, "todo");
    assert!(ken_core::pipeline::resolve_lane(&p, "nowhere").is_none());
    assert_eq!(ken_core::pipeline::lane_index(&p, "tester"), Some(2));
    assert_eq!(p.blocked_lane().unwrap().id, "blocked");
    assert_eq!(p.human_lane().unwrap().id, "signoff");
    assert!(p.lanes[0].is_holding());
    assert!(!p.lanes[1].is_holding());
    let ps = vec![pipe(false)];
    assert!(ken_core::pipeline::find_pipeline(&ps, "DEFAULT").is_some());
}

#[test]
fn root_blockers_come_in_depth_first_order_as_written() {
    // The walk pops the last blocker first: `E` is met before `c`.
    let mut g = BlockGraph::new();
    g.insert("A", &["c".to_string(), "B".to_string()]);
    g.insert("B", &["E".to_string(), "C ".to_string()]);
    assert_eq!(root_blockers(&g, "A"), vec!["C ".to_string(), "E".to_string()]);
}

#[test]
fn the_last_insert_for_a_ticket_wins_up_to_case_and_spaces() {
    let mut g = BlockGraph::new();
    assert!(g.is_empty());
    g.insert("t1", &["A".to_string()]);
    g.insert("T2", &["B".to_string()]);
    g.insert(" T1 ", &["C".to_string(), "D".to_string()]);
    assert!(!g.is_empty());
    assert_eq!(g.blockers("T1"), vec!["C".to_string(), "D".to_string()]);
    assert_eq!(g.blockers("t2"), vec!["B".to_string()]);
    assert!(g.blockers("T3").is_empty());
}

#[test]
fn shifting_a_date_and_back_gives_it_again() {
    for (date, days) in [("2026-08-03", 30i64), ("2024-02-29", 365), ("2025-12-15", -400), ("0001-01-01", 3)] {
        let there = shift_iso_date(date, days).unwrap();
        assert_eq!(shift_iso_date(&there, -days).as_deref(), Some(date));
    }
}

#[test]
fn an_impossible_date_never_reads_as_expired() {
    let m = ArtifactManifest {
        ticket: uid('T'),
        created: "2026-08-01".to_string(),
        expires: "2026-13-01".to_string(),
        files: vec![],
    };
    assert!(!is_artifact_expired(&m, "2027-01-01"), "month 13 is not a date");
    let ok = ArtifactManifest { expires: " 2026-12-01 ".to_string(), ..m };
    assert!(is_artifact_expired(&ok, "2027-01-01"));
    assert!(!is_artifact_expired(&ok, "2027-01-32"), "day 32 is not a date");
}
