use ken_core::pipeline::{
    admit_start, advance, block, compose_digest, derive_queue, evaluate_all_unblocks,
    evaluate_unblocks, is_retry_cap_reason, lane_index, matches_block_filter, resolve_lane,
    running_runs, unblock, Admission, AdvanceOutcome, BlockGraph, BlockOutcome, BlockRefusal,
    BlockRequest, BlockedFilter, ConfirmReason, EntryKind, FmEntry, FmValue, Kickoff, Lane, Pipeline,
    RefusalReason, RunOutcome, RunRecord, Runner, Task, Transition, TransitionRefusal,
    UnblockOutcome, UnblockRefusal, UnblockRequest,
};
use ken_core::pipeline::Kickoff::{Confirm, Manual};
use ken_core::pipeline::validate::{validate_pipeline, PipelineIssue};
use ken_core::pipeline::attention::{attention_reasons, AttentionReason};
use ken_core::pipeline::children::{compose_idea_ticket, compose_signoff_child, SignoffChild, SignoffRefusal};
use ken_core::pipeline::{propose_idea, IdeaRefusal};

/// A 26-character Crockford ULID with a recognisable tail.
fn uid(tag: char) -> String {
    format!("01J{}{tag}", "0".repeat(22))
}

fn text(key: &str, value: &str) -> FmEntry {
    FmEntry { key: key.to_string(), value: FmValue::Text(value.to_string()) }
}

fn list(key: &str, items: &[&str]) -> FmEntry {
    FmEntry { key: key.to_string(), value: FmValue::Sequence(items.iter().map(|s| FmValue::Text(s.to_string())).collect()) }
}

fn bare(id: &str, status: &str, extra: Vec<FmEntry>) -> Task {
    Task {
        id: id.to_string(),
        title: format!("Ticket {id}"),
        status_raw: status.to_string(),
        project: "ken".to_string(),
        created: String::new(),
        updated: String::new(),
        lane: None,
        extra,
    }
}

/// A pipeline ticket with a full boundary (`scope` + `verify`), so it is
/// admissible on every axis except the one a given test varies.
fn ticket(id: &str, status: &str, mut extra: Vec<FmEntry>) -> Task {
    let mut m = vec![
        text("pipeline", "default"),
        list("scope", &["crates/ken-core/**"]),
        text("verify", "cargo test -p ken-core"),
    ];
    m.append(&mut extra);
    bare(id, status, m)
}

/// The same, with no `scope`/`verify`.
fn unbounded(id: &str, status: &str, mut extra: Vec<FmEntry>) -> Task {
    let mut m = vec![text("pipeline", "default")];
    m.append(&mut extra);
    bare(id, status, m)
}

#[allow(clippy::too_many_arguments)]
fn lane(
    id: &str,
    name: &str,
    maps_to: &str,
    agent: Option<&str>,
    model: Option<&str>,
    kickoff: Kickoff,
    on_pass: Option<&str>,
    on_fail: Option<&str>,
) -> Lane {
    Lane {
        id: id.to_string(),
        name: name.to_string(),
        maps_to_raw: maps_to.to_string(),
        agent: agent.map(str::to_string),
        model: model.map(str::to_string),
        kickoff,
        kickoff_raw: kickoff.as_str().to_string(),
        on_pass: on_pass.map(str::to_string),
        on_fail: on_fail.map(str::to_string),
        writes_code: false,
        human: false,
        terminal: false,
        generative: false,
        blocked: false,
        runner: Runner::Mcp,
    }
}

/// The standard delivery pipeline: twelve lanes, as the default
/// definition file declares them.
fn pipe() -> Pipeline {
    let mut programmer =
        lane("programmer", "Programmer", "doing", Some("programmer"), Some("sonnet"), Confirm, Some("tester"), None);
    programmer.writes_code = true;
    let mut signoff =
        lane("signoff", "Sign-off", "review", None, None, Manual, Some("documentation"), Some("refinement"));
    signoff.human = true;
    let mut documentation =
        lane("documentation", "Documentation", "done", Some("documenter"), Some("sonnet"), Confirm, None, None);
    documentation.terminal = true;
    documentation.generative = true;
    let mut blocked = lane("blocked", "Blocked", "doing", None, None, Manual, None, None);
    blocked.blocked = true;
    Pipeline {
        id: "default".to_string(),
        name: "Standard delivery pipeline".to_string(),
        auto: false,
        concurrency_cap: 1,
        bounce_cap: 3,
        lanes: vec![
            lane("ideas", "Ideas backlog", "backlog", None, None, Manual, Some("backlog"), None),
            lane("backlog", "Backlog", "backlog", None, None, Manual, Some("todo"), None),
            lane("todo", "To Do", "todo", None, None, Manual, Some("investigation"), None),
            lane(
                "investigation",
                "Investigation",
                "doing",
                Some("investigator"),
                Some("sonnet"),
                Confirm,
                Some("refinement"),
                None,
            ),
            lane("refinement", "Refinement", "doing", Some("refiner"), Some("opus"), Confirm, Some("programmer"), None),
            programmer,
            lane("tester", "Tester", "review", Some("tester"), Some("sonnet"), Confirm, Some("architect"), Some("programmer")),
            lane(
                "architect",
                "Architect review",
                "review",
                Some("architect"),
                Some("opus"),
                Confirm,
                Some("qa"),
                Some("refinement"),
            ),
            lane("qa", "QA tester", "review", Some("qa"), Some("sonnet"), Confirm, Some("signoff"), Some("programmer")),
            signoff,
            documentation,
            blocked,
        ],
        body: "Per-lane briefs live here.".to_string(),
        path: "/ws/.ken-workspace/pipelines/default.md".to_string(),
    }
}

/// The same pipeline with `programmer` set to `kickoff: auto` and the
/// master switch on.
fn auto_pipe() -> Pipeline {
    let mut p = pipe();
    p.auto = true;
    for l in p.lanes.iter_mut() {
        if l.id == "programmer" {
            l.kickoff = Kickoff::Auto;
            l.kickoff_raw = "auto".to_string();
        }
    }
    assert!(p.auto, "fixture: master switch must be on");
    assert_eq!(p.lane("programmer").unwrap().kickoff, Kickoff::Auto, "fixture: programmer must be an auto lane");
    p
}

fn empty_run() -> RunRecord {
    RunRecord {
        id: String::new(),
        ticket: String::new(),
        pipeline: String::new(),
        lane: String::new(),
        agent: String::new(),
        model: String::new(),
        scope: Vec::new(),
        verify: String::new(),
        started: String::new(),
        ended: String::new(),
        outcome: None,
        outcome_raw: String::new(),
        artifacts: Vec::new(),
        report: String::new(),
    }
}

fn running_run() -> RunRecord {
    RunRecord { outcome: Some(RunOutcome::Running), ..empty_run() }
}

fn run(id: &str, ticket_id: &str, outcome: RunOutcome) -> RunRecord {
    RunRecord {
        id: id.to_string(),
        ticket: ticket_id.to_string(),
        pipeline: "default".to_string(),
        lane: "programmer".to_string(),
        agent: "programmer".to_string(),
        model: "sonnet".to_string(),
        scope: vec!["crates/ken-core/**".to_string()],
        verify: "cargo test -p ken-core".to_string(),
        started: "2026-08-03T10:00:00Z".to_string(),
        ended: String::new(),
        outcome: Some(outcome),
        outcome_raw: outcome.as_str().to_string(),
        artifacts: Vec::new(),
        report: String::new(),
    }
}

fn graph(edges: &[(char, &[char])]) -> BlockGraph {
    let mut g = BlockGraph::new();
    for (from, tos) in edges {
        let deps: Vec<String> = tos.iter().map(|c| uid(*c)).collect();
        g.insert(&uid(*from), &deps);
    }
    g
}

#[test]
fn lane_resolution_is_case_insensitive_and_ordered() {
    let p = pipe();
    assert_eq!(resolve_lane(&p, "Architect").unwrap().id, "architect");
    assert_eq!(resolve_lane(&p, "  qa  ").unwrap().id, "qa");
    assert!(resolve_lane(&p, "nonesuch").is_none());
    assert_eq!(lane_index(&p, "ideas"), Some(0));
    assert!(lane_index(&p, "programmer").unwrap() < lane_index(&p, "tester").unwrap());
    // Empty status: the intake column, i.e. whichever lane is first.
    assert_eq!(resolve_lane(&p, "").unwrap().id, "ideas");
}

#[test]
fn block_captures_the_return_lane_from_the_tickets_current_lane() {
    let p = pipe();
    let t = ticket(&uid('A'), "programmer", vec![]);
    let req = BlockRequest { blocked_by: vec![uid('B')], reason: None, now: "2026-08-03T10:00:00Z".into() };
    let BlockOutcome::Blocked { block, patch, log } = block(&t, &p, &BlockGraph::new(), &req) else {
        panic!("expected a block");
    };
    assert_eq!(block.return_lane(), "programmer");
    assert_eq!(block.blocked_by(), &[uid('B')]);
    assert_eq!(block.blocked_at(), "2026-08-03T10:00:00Z");
    assert_eq!(patch.lane.as_deref(), Some("blocked"));
    assert_eq!(patch.return_lane.as_deref(), Some("programmer"));
    assert_eq!(patch.blocked_by.as_deref(), Some(&[uid('B')][..]));
    assert_eq!(patch.block_reason.as_deref(), Some(""));
    // Exactly the block keys and nothing else.
    assert_eq!(patch.bounces, None);
    assert!(log.contains("returns to programmer"));
}

#[test]
fn extending_a_block_preserves_the_original_return_lane() {
    let p = pipe();
    let t = ticket(&uid('A'), "blocked", vec![text("return_lane", "refinement"), list("blocked_by", &[&uid('B')])]);
    let req = BlockRequest {
        blocked_by: vec![uid('C')],
        reason: Some("and the upstream 2.0 release".into()),
        now: "2026-08-04T10:00:00Z".into(),
    };
    let BlockOutcome::Blocked { block, .. } = block(&t, &p, &BlockGraph::new(), &req) else {
        panic!("expected a block");
    };
    assert_eq!(
        block.return_lane(),
        "refinement",
        "re-blocking must not overwrite the return lane with the blocked lane"
    );
    assert_eq!(block.blocked_by(), &[uid('B'), uid('C')]);
    assert_eq!(block.reason(), Some("and the upstream 2.0 release"));
}

#[test]
fn a_block_with_no_recoverable_return_lane_is_refused_not_invented() {
    let p = pipe();
    // Already in the blocked lane, no `return_lane` on the file.
    let t = ticket(&uid('A'), "blocked", vec![]);
    let req = BlockRequest { reason: Some("x".into()), now: "n".into(), ..Default::default() };
    assert_eq!(
        block(&t, &p, &BlockGraph::new(), &req),
        BlockOutcome::Refused { reason: BlockRefusal::MissingReturnLane }
    );
}

#[test]
fn block_refuses_paths_non_ulids_self_edges_and_empty_requests() {
    let p = pipe();
    let id = uid('A');
    let t = ticket(&id, "programmer", vec![]);
    let g = BlockGraph::new();
    let req = |deps: Vec<String>, reason: Option<&str>| BlockRequest {
        blocked_by: deps,
        reason: reason.map(str::to_string),
        now: "n".into(),
    };
    let refusal = |o: BlockOutcome| match o {
        BlockOutcome::Refused { reason } => reason,
        other => panic!("expected refusal, got {other:?}"),
    };
    assert_eq!(
        refusal(block(&t, &p, &g, &req(vec![".ken-workspace/tasks/x.md".into()], None))),
        BlockRefusal::PathBlocker(".ken-workspace/tasks/x.md".into())
    );
    assert_eq!(
        refusal(block(&t, &p, &g, &req(vec!["not-a-ulid".into()], None))),
        BlockRefusal::MalformedBlocker("not-a-ulid".into())
    );
    assert_eq!(refusal(block(&t, &p, &g, &req(vec![id.clone()], None))), BlockRefusal::SelfBlock(id));
    assert_eq!(refusal(block(&t, &p, &g, &req(vec![], None))), BlockRefusal::Empty);
    // A reason alone is a perfectly good block.
    assert!(matches!(block(&t, &p, &g, &req(vec![], Some("waiting on a person"))), BlockOutcome::Blocked { .. }));
}

#[test]
fn block_refuses_a_cycle_before_producing_any_patch() {
    let p = pipe();
    let a = uid('A');
    let b = uid('B');
    // B is already blocked by A; blocking A by B would close the loop.
    let g = graph(&[('B', &['A'])]);
    let t = ticket(&a, "programmer", vec![]);
    let out = block(&t, &p, &g, &BlockRequest { blocked_by: vec![b.clone()], reason: None, now: "n".into() });
    match out {
        BlockOutcome::Refused { reason: BlockRefusal::Cycle(path) } => {
            assert_eq!(path.path, vec![a, b.clone(), uid('A')]);
            assert!(path.render().contains(&b));
        }
        other => panic!("expected a cycle refusal, got {other:?}"),
    }
}

#[test]
fn block_refuses_a_cycle_closed_by_two_deps_in_the_same_request() {
    let p = pipe();
    // C is blocked by A. Asking to block A by [B, C] must be refused on
    // the C edge even though B alone is fine.
    let g = graph(&[('C', &['A'])]);
    let t = ticket(&uid('A'), "programmer", vec![]);
    let out = block(
        &t,
        &p,
        &g,
        &BlockRequest { blocked_by: vec![uid('B'), uid('C')], reason: None, now: "n".into() },
    );
    assert!(matches!(out, BlockOutcome::Refused { reason: BlockRefusal::Cycle(_) }));
}

#[test]
fn unblock_clears_dependencies_and_reason_independently() {
    let p = pipe();
    let t = ticket(
        &uid('A'),
        "blocked",
        vec![
            text("return_lane", "programmer"),
            list("blocked_by", &[&uid('B')]),
            text("block_reason", "upstream 2.0"),
        ],
    );
    // Clearing only the dependency leaves the reason holding it.
    let out = unblock(&t, &p, &UnblockRequest { clear_deps: true, clear_reason: false });
    match out {
        UnblockOutcome::StillBlocked { remaining_deps, remaining_reason, patch } => {
            assert!(remaining_deps.is_empty());
            assert_eq!(remaining_reason.as_deref(), Some("upstream 2.0"));
            assert_eq!(patch.lane, None, "it does not go home yet");
        }
        other => panic!("expected StillBlocked, got {other:?}"),
    }
    // Clearing only the reason leaves the dependency holding it.
    assert!(matches!(
        unblock(&t, &p, &UnblockRequest { clear_deps: false, clear_reason: true }),
        UnblockOutcome::StillBlocked { .. }
    ));
    // Clearing both releases it back to the recorded return lane.
    match unblock(&t, &p, &UnblockRequest { clear_deps: true, clear_reason: true }) {
        UnblockOutcome::Released { return_lane, patch, reset_bounces, .. } => {
            assert_eq!(return_lane, "programmer");
            assert_eq!(patch.lane.as_deref(), Some("programmer"));
            assert_eq!(patch.blocked_by.as_deref(), Some(&[][..]));
            assert_eq!(patch.block_reason.as_deref(), Some(""));
            assert!(!reset_bounces, "a dependency block keeps its bounce history");
            assert_eq!(patch.bounces, None);
        }
        other => panic!("expected Released, got {other:?}"),
    }
    assert_eq!(
        unblock(&t, &p, &UnblockRequest::default()),
        UnblockOutcome::Refused { reason: UnblockRefusal::Empty }
    );
    assert_eq!(
        unblock(&ticket(&uid('C'), "todo", vec![]), &p, &UnblockRequest { clear_deps: true, clear_reason: true }),
        UnblockOutcome::Refused { reason: UnblockRefusal::NotBlocked }
    );
}

#[test]
fn unblocking_a_retry_capped_ticket_resets_bounces() {
    let p = pipe();
    let t = ticket(
        &uid('A'),
        "blocked",
        vec![
            text("return_lane", "programmer"),
            text("bounces", "4"),
            text("block_reason", "exceeded retry cap (4 bounces)"),
        ],
    );
    match unblock(&t, &p, &UnblockRequest { clear_deps: true, clear_reason: true }) {
        UnblockOutcome::Released { patch, reset_bounces, .. } => {
            assert!(reset_bounces);
            assert_eq!(patch.bounces, Some(0));
        }
        other => panic!("expected Released, got {other:?}"),
    }
    assert!(is_retry_cap_reason("exceeded retry cap (4 bounces)"));
    assert!(!is_retry_cap_reason("waiting on the upstream 2.0 release"));
}

const ALL_ENTRIES: [EntryKind; 4] = [EntryKind::Kickoff, EntryKind::Claim, EntryKind::Unblock, EntryKind::AutoTransition];

#[test]
fn blocked_is_refused_before_gate_cap_or_anything_else() {
    let dep = uid('D');
    // Every way a ticket can be blocked...
    let blocked_tickets = vec![
        (
            "in the blocked lane",
            ticket(&uid('A'), "blocked", vec![text("return_lane", "programmer"), text("block_reason", "waiting")]),
        ),
        ("by a dependency, still in-lane", ticket(&uid('B'), "programmer", vec![list("blocked_by", &[&dep])])),
        ("by a reason, still in-lane", ticket(&uid('C'), "programmer", vec![text("block_reason", "upstream 2.0")])),
        (
            "by the retry cap",
            ticket(
                &uid('E'),
                "blocked",
                vec![
                    text("return_lane", "programmer"),
                    text("bounces", "4"),
                    text("block_reason", "exceeded retry cap (4 bounces)"),
                ],
            ),
        ),
        // ...including one with no boundary, which would otherwise be a
        // downgrade rather than a refusal.
        (
            "blocked and unbounded",
            unbounded(&uid('F'), "blocked", vec![text("return_lane", "programmer"), text("block_reason", "waiting")]),
        ),
    ];

    // ...against every way a lane can invite work, with the master switch
    // on, an auto lane, and a completely free concurrency cap.
    let auto = auto_pipe();
    let plain = pipe();
    let busy = [running_run()];
    let ledger: [&[RunRecord]; 2] = [&[], &busy];

    for (what, t) in &blocked_tickets {
        for p in [&auto, &plain] {
            for lane_id in ["programmer", "tester", "documentation", "blocked", "signoff", "todo"] {
                let lane = p.lane(lane_id).unwrap();
                for entry in ALL_ENTRIES {
                    for runs in ledger {
                        let got = admit_start(t, lane, p, runs, entry);
                        assert!(
                            matches!(got, Admission::Refused { reason: RefusalReason::Blocked { .. } }),
                            "blocked ticket ({what}) in lane {lane_id} (auto={}, kickoff={:?}, entry={entry:?}) \
                             must be Refused-Blocked before any other condition, got {got:?}",
                            p.auto,
                            lane.kickoff
                        );
                    }
                }
            }
        }
    }
}

#[test]
fn blocked_beats_an_auto_lane_with_the_master_switch_on() {
    let p = auto_pipe();
    let lane = p.lane("programmer").unwrap();
    assert_eq!(lane.kickoff, Kickoff::Auto);
    assert!(p.auto);
    let t = ticket(&uid('A'), "blocked", vec![text("return_lane", "programmer"), text("block_reason", "waiting")]);
    match admit_start(&t, lane, &p, &[], EntryKind::AutoTransition) {
        Admission::Refused { reason: RefusalReason::Blocked { return_lane, block_reason, .. } } => {
            assert_eq!(return_lane.as_deref(), Some("programmer"));
            assert_eq!(block_reason.as_deref(), Some("waiting"));
        }
        other => panic!("expected a blocked refusal, got {other:?}"),
    }
    // An unblocked sibling in the same lane does start, so the test above
    // is proving the block and not a broken fixture.
    let ok = ticket(&uid('B'), "programmer", vec![]);
    assert_eq!(admit_start(&ok, lane, &p, &[], EntryKind::AutoTransition), Admission::Start);
}

#[test]
fn nothing_arriving_by_unblock_can_ever_start() {
    let auto = auto_pipe();
    let plain = pipe();
    let tickets = [
        ticket(&uid('A'), "programmer", vec![]),
        unbounded(&uid('B'), "programmer", vec![]),
        ticket(&uid('C'), "programmer", vec![text("return_lane", "programmer")]),
    ];
    let busy = [running_run()];
    for p in [&auto, &plain] {
        for lane in &p.lanes {
            for t in &tickets {
                for runs in [&[][..], &busy[..]] {
                    let got = admit_start(t, lane, p, runs, EntryKind::Unblock);
                    assert!(
                        !matches!(got, Admission::Start),
                        "unblock reached Start in lane {} (kickoff {:?}, auto {}): {got:?}",
                        lane.id,
                        lane.kickoff,
                        p.auto
                    );
                }
            }
        }
    }
    // And the positive half: it is a confirmation, not a refusal, for a
    // runnable lane.
    let lane = auto.lane("programmer").unwrap();
    assert_eq!(
        admit_start(&tickets[0], lane, &auto, &[], EntryKind::Unblock),
        Admission::Confirm { reason: ConfirmReason::Unblocked }
    );
}

#[test]
fn admission_gate_table_for_unblocked_tickets() {
    let plain = pipe();
    let auto = auto_pipe();
    let t = ticket(&uid('A'), "programmer", vec![]);

    // Holding columns and the human lane refuse outright.
    assert_eq!(
        admit_start(&t, plain.lane("todo").unwrap(), &plain, &[], EntryKind::Kickoff),
        Admission::Refused { reason: RefusalReason::NoAgent { lane: "todo".into() } }
    );
    assert_eq!(
        admit_start(&t, plain.lane("signoff").unwrap(), &plain, &[], EntryKind::Kickoff),
        Admission::Refused { reason: RefusalReason::HumanLane { lane: "signoff".into() } }
    );
    // A manual lane reached by automation, rather than by a human.
    let manual_agent = Pipeline {
        id: "m".into(),
        name: String::new(),
        auto: true,
        concurrency_cap: 1,
        bounce_cap: 3,
        lanes: vec![lane("a", "", "doing", Some("bob"), None, Kickoff::Manual, None, None)],
        body: String::new(),
        path: "/ws/m.md".into(),
    };
    let m_lane = manual_agent.lane("a").unwrap();
    let mt = bare(
        &uid('A'),
        "a",
        vec![text("pipeline", "m"), list("scope", &["x/**"]), text("verify", "v")],
    );
    assert_eq!(
        admit_start(&mt, m_lane, &manual_agent, &[], EntryKind::AutoTransition),
        Admission::Refused { reason: RefusalReason::ManualLane { lane: "a".into() } }
    );
    assert_eq!(
        admit_start(&mt, m_lane, &manual_agent, &[], EntryKind::Kickoff),
        Admission::Confirm { reason: ConfirmReason::ManualKickoff }
    );

    // A `confirm` lane confirms, whatever the master switch says.
    assert_eq!(
        admit_start(&t, plain.lane("tester").unwrap(), &plain, &[], EntryKind::Kickoff),
        Admission::Confirm { reason: ConfirmReason::LaneGate }
    );
    // An `auto` lane with the master switch off is still a confirm.
    let mut master_off = auto_pipe();
    master_off.auto = false;
    assert_eq!(
        admit_start(&t, master_off.lane("programmer").unwrap(), &master_off, &[], EntryKind::AutoTransition),
        Admission::Confirm { reason: ConfirmReason::AutoDisabled }
    );
    // Master switch on + auto lane + boundary + free cap: Start.
    assert_eq!(
        admit_start(&t, auto.lane("programmer").unwrap(), &auto, &[], EntryKind::AutoTransition),
        Admission::Start
    );
}

#[test]
fn an_unbounded_ticket_can_never_auto_run() {
    let auto = auto_pipe();
    let lane = auto.lane("programmer").unwrap();
    let missing_verify = bare(
        &uid('A'),
        "programmer",
        vec![text("pipeline", "default"), list("scope", &["x/**"])],
    );
    assert_eq!(
        admit_start(&missing_verify, lane, &auto, &[], EntryKind::AutoTransition),
        Admission::Confirm { reason: ConfirmReason::MissingBoundary { scope: false, verify: true } }
    );
    let neither = unbounded(&uid('B'), "programmer", vec![]);
    assert_eq!(
        admit_start(&neither, lane, &auto, &[], EntryKind::AutoTransition),
        Admission::Confirm { reason: ConfirmReason::MissingBoundary { scope: true, verify: true } }
    );
    // The boundary reason outranks the unblock reason, but it is still a
    // Confirm.
    assert_eq!(
        admit_start(&neither, lane, &auto, &[], EntryKind::Unblock),
        Admission::Confirm { reason: ConfirmReason::MissingBoundary { scope: true, verify: true } }
    );
    // ...and an external agent cannot claim past a missing boundary.
    assert!(matches!(admit_start(&neither, lane, &auto, &[], EntryKind::Claim), Admission::Confirm { .. }));
}

#[test]
fn the_cap_queues_rather_than_parallelises() {
    let auto = auto_pipe();
    let lane = auto.lane("programmer").unwrap();
    let t = ticket(&uid('A'), "programmer", vec![]);
    assert_eq!(auto.concurrency_cap, 1);
    assert_eq!(admit_start(&t, lane, &auto, &[], EntryKind::AutoTransition), Admission::Start);
    assert_eq!(
        admit_start(&t, lane, &auto, &[running_run()], EntryKind::AutoTransition),
        Admission::Queued { running: 1, cap: 1 }
    );
    // Finished runs don't hold a slot.
    let done = RunRecord { outcome: Some(RunOutcome::Pass), ..empty_run() };
    let queued = RunRecord { outcome: Some(RunOutcome::Queued), ..empty_run() };
    assert_eq!(running_runs(&[done, queued]), 0);
    // A claim respects the cap too.
    assert_eq!(
        admit_start(&t, auto.lane("tester").unwrap(), &auto, &[running_run()], EntryKind::Claim),
        Admission::Queued { running: 1, cap: 1 }
    );
}

fn moved(t: Transition) -> (String, String, bool, u32) {
    match t {
        Transition::Moved { from, to, backward, bounces, .. } => (from, to, backward, bounces),
        other => panic!("expected a move, got {other:?}"),
    }
}

#[test]
fn forward_transition_table() {
    let p = pipe();
    let now = "2026-08-03T10:00:00Z";
    for (from, to) in [
        ("ideas", "backlog"),
        ("backlog", "todo"),
        ("todo", "investigation"),
        ("investigation", "refinement"),
        ("refinement", "programmer"),
        ("programmer", "tester"),
        ("tester", "architect"),
        ("architect", "qa"),
        ("qa", "signoff"),
        ("signoff", "documentation"),
    ] {
        let t = ticket(&uid('A'), from, vec![]);
        let (f, got, backward, bounces) = moved(advance(&t, &p, AdvanceOutcome::Pass, now));
        assert_eq!((f.as_str(), got.as_str()), (from, to));
        assert!(!backward);
        assert_eq!(bounces, 0, "a forward move never touches the counter");
    }
    // Documentation is terminal: no `on_pass` edge.
    assert_eq!(
        advance(&ticket(&uid('A'), "documentation", vec![]), &p, AdvanceOutcome::Pass, now),
        Transition::Refused {
            reason: TransitionRefusal::NoEdge { lane: "documentation".into(), outcome: AdvanceOutcome::Pass }
        }
    );
    // A lane with no `on_fail` refuses a fail.
    assert!(matches!(
        advance(&ticket(&uid('A'), "programmer", vec![]), &p, AdvanceOutcome::Fail, now),
        Transition::Refused { reason: TransitionRefusal::NoEdge { .. } }
    ));
    // An unresolvable current lane refuses rather than guessing.
    assert_eq!(
        advance(&ticket(&uid('A'), "programmerr", vec![]), &p, AdvanceOutcome::Pass, now),
        Transition::Refused { reason: TransitionRefusal::UnknownLane { status: "programmerr".into() } }
    );
}

#[test]
fn every_bounce_edge_counts_as_a_bounce() {
    let p = pipe();
    let now = "n";
    for (from, to) in [("tester", "programmer"), ("architect", "refinement"), ("qa", "programmer"), ("signoff", "refinement")] {
        let t = ticket(&uid('A'), from, vec![]);
        let out = advance(&t, &p, AdvanceOutcome::Fail, now);
        let (f, got, backward, bounces) = moved(out);
        assert_eq!((f.as_str(), got.as_str()), (from, to));
        assert!(backward, "{from} -> {to} is backward in definition order");
        assert_eq!(bounces, 1);
    }
}

#[test]
fn the_bounce_cap_boundary_produces_a_block_not_a_halt() {
    let p = pipe();
    let now = "2026-08-03T10:00:00Z";
    assert_eq!(p.bounce_cap, 3);

    // 0->1, 1->2, 2->3 all move; bounces==3 is exactly at the cap.
    for (before, after) in [(0u32, 1u32), (1, 2), (2, 3)] {
        let t = ticket(&uid('A'), "tester", vec![text("bounces", &before.to_string())]);
        let (_, to, backward, bounces) = moved(advance(&t, &p, AdvanceOutcome::Fail, now));
        assert_eq!(to, "programmer");
        assert!(backward);
        assert_eq!(bounces, after);
    }

    // The next one would make 4, which exceeds 3: block.
    let t = ticket(&uid('A'), "tester", vec![text("bounces", "3")]);
    match advance(&t, &p, AdvanceOutcome::Fail, now) {
        Transition::Blocked { from, would_have_entered, block, patch, log } => {
            assert_eq!(from, "tester");
            assert_eq!(would_have_entered, "programmer");
            // The return lane is the lane it was bouncing to.
            assert_eq!(block.return_lane(), "programmer");
            assert_eq!(block.reason(), Some("exceeded retry cap (4 bounces)"));
            assert!(is_retry_cap_reason(block.reason().unwrap()));
            assert_eq!(block.blocked_at(), now);
            assert_eq!(patch.lane.as_deref(), Some("blocked"), "it goes to the Blocked lane");
            assert_eq!(patch.return_lane.as_deref(), Some("programmer"));
            assert_eq!(patch.bounces, Some(4));
            assert!(log.contains("refused"));
        }
        other => panic!("expected a block at the cap boundary, got {other:?}"),
    }
    // And well past the cap it stays a block, never a second state.
    assert!(matches!(
        advance(&ticket(&uid('A'), "architect", vec![text("bounces", "99")]), &p, AdvanceOutcome::Fail, now),
        Transition::Blocked { .. }
    ));
}

#[test]
fn a_retry_cap_block_and_a_dependency_block_are_the_same_thing() {
    let p = pipe();
    let capped = ticket(
        &uid('A'),
        "blocked",
        vec![
            text("return_lane", "programmer"),
            text("bounces", "4"),
            text("block_reason", "exceeded retry cap (4 bounces)"),
        ],
    );
    let dependency =
        ticket(&uid('B'), "blocked", vec![text("return_lane", "tester"), list("blocked_by", &[&uid('D')])]);
    // Same lane, same filter, and both refused by the same function.
    assert_eq!(capped.status_raw, dependency.status_raw);
    assert!(
        matches_block_filter(&capped, &BlockedFilter::Blocked)
            && matches_block_filter(&dependency, &BlockedFilter::Blocked)
    );
    let lane = p.lane("programmer").unwrap();
    for t in [&capped, &dependency] {
        assert!(matches!(
            admit_start(t, lane, &p, &[], EntryKind::Kickoff),
            Admission::Refused { reason: RefusalReason::Blocked { .. } }
        ));
    }
}

#[test]
fn unblock_evaluation_needs_every_dependency_terminal_and_the_reason_cleared() {
    let p = pipe();
    let d1 = uid('D');
    let d2 = uid('E');
    let blocker_done = ticket(&d1, "documentation", vec![]);
    let blocker_open = ticket(&d2, "programmer", vec![]);

    let dependent = |deps: &[&str], mut extra: Vec<FmEntry>| {
        let mut m = vec![text("return_lane", "programmer"), list("blocked_by", deps)];
        m.append(&mut extra);
        ticket(&uid('A'), "blocked", m)
    };

    // One terminal dependency, no reason: free.
    let board = vec![dependent(&[&d1], vec![]), blocker_done.clone(), blocker_open.clone()];
    let freed = evaluate_unblocks(&board, &p, &d1);
    assert_eq!(freed.len(), 1);
    assert_eq!(freed[0].ticket_id, uid('A'));
    assert_eq!(freed[0].return_lane, "programmer");
    assert_eq!(freed[0].patch.lane.as_deref(), Some("programmer"));
    assert_eq!(freed[0].patch.blocked_by.as_deref(), Some(&[][..]));

    // A second, non-terminal dependency holds it.
    let board = vec![dependent(&[&d1, &d2], vec![]), blocker_done.clone(), blocker_open.clone()];
    assert!(evaluate_unblocks(&board, &p, &d1).is_empty());

    // A reason holds it even with every dependency terminal.
    let board = vec![dependent(&[&d1], vec![text("block_reason", "upstream 2.0")]), blocker_done.clone()];
    assert!(evaluate_unblocks(&board, &p, &d1).is_empty());

    // An unresolvable blocker is not a satisfied one.
    let board = vec![dependent(&[&uid('Z')], vec![]), blocker_done.clone()];
    assert!(evaluate_all_unblocks(&board, &p).is_empty());

    // A missing/orphaned return lane is a tray entry, not a guess.
    let orphan = ticket(&uid('B'), "blocked", vec![text("return_lane", "gone"), list("blocked_by", &[&d1])]);
    assert!(evaluate_unblocks(&[orphan, blocker_done.clone()], &p, &d1).is_empty());

    // The targeted evaluation only considers dependents naming the ticket
    // that just went terminal; the open-time sweep sees all.
    let board = vec![dependent(&[&d1], vec![]), blocker_done];
    assert!(evaluate_unblocks(&board, &p, &d2).is_empty());
    assert_eq!(evaluate_all_unblocks(&board, &p).len(), 1);
}

#[test]
fn a_freed_ticket_re_enters_through_the_gate_and_starts_nothing() {
    let auto = auto_pipe();
    let d = uid('D');
    let blocker = ticket(&d, "documentation", vec![]);
    let dependent = ticket(&uid('A'), "blocked", vec![text("return_lane", "programmer"), list("blocked_by", &[&d])]);
    let board = vec![dependent.clone(), blocker];
    let freed = evaluate_unblocks(&board, &auto, &d);
    assert_eq!(freed.len(), 1);

    // Apply the patch the way a caller would, then re-admit.
    let home = ticket(&uid('A'), &freed[0].return_lane, vec![]);
    let lane = auto.lane(&freed[0].return_lane).unwrap();
    assert_eq!(lane.kickoff, Kickoff::Auto);
    assert!(auto.auto);
    assert_eq!(
        admit_start(&home, lane, &auto, &[], EntryKind::Unblock),
        Admission::Confirm { reason: ConfirmReason::Unblocked }
    );
}

#[test]
fn stale_detection_is_every_running_record_the_session_has_no_memory_of() {
    let live = run(&uid('L'), &uid('T'), RunOutcome::Running);
    let orphaned = run(&uid('O'), &uid('T'), RunOutcome::Running);
    let queued = run(&uid('Q'), &uid('T'), RunOutcome::Queued);
    let blocked = run(&uid('K'), &uid('T'), RunOutcome::Blocked);
    let done = run(&uid('N'), &uid('T'), RunOutcome::Pass);
    let runs = vec![live.clone(), orphaned.clone(), queued.clone(), blocked.clone(), done];

    // Fresh workspace-open: nothing known, so every running record is
    // stale.
    let empty: Vec<String> = Vec::new();
    let q = derive_queue(&[], &[], &runs, &empty);
    assert_eq!(q.running.len(), 0);
    assert_eq!(q.stale.len(), 2);
    assert!(q.stale.iter().any(|r| r.id == live.id));
    assert!(q.stale.iter().any(|r| r.id == orphaned.id));
    assert_eq!(q.queued, vec![queued.clone()]);
    assert_eq!(q.blocked, vec![blocked.clone()]);

    // Mid-session: the caller's own claim is remembered, so only the
    // orphan is stale, and the live one is not silently marked passed.
    let known = vec![live.id.clone()];
    let q2 = derive_queue(&[], &[], &runs, &known);
    assert_eq!(q2.running, vec![live]);
    assert_eq!(q2.stale, vec![orphaned]);
}

#[test]
fn waiting_human_is_derived_from_admit_not_guessed() {
    let p = pipe();
    let t = ticket(&uid('A'), "tester", vec![]); // kickoff: confirm
    let blocked_t = ticket(&uid('B'), "programmer", vec![list("blocked_by", &["unrelated"])]);
    let board = vec![t.clone(), blocked_t];
    let q = derive_queue(&board, &[p], &[], &[]);
    assert_eq!(q.waiting_human, vec![t.id.clone()], "blocked ticket must not appear");
}

#[test]
fn digest_groups_in_the_specified_order_with_root_blocker_shown() {
    let p = pipe();
    let today = "2026-08-03";

    // awaiting_review: sitting in signoff.
    let mut reviewing = ticket(&uid('R'), "signoff", vec![]);
    reviewing.updated = "2026-08-02".into();

    // newly_unblocked: block evidence cleared, return_lane survives.
    let unblocked = ticket(&uid('U'), "programmer", vec![text("return_lane", "programmer")]);

    // blocked: a 3-deep chain; the leaf is the root blocker, not `mid`'s
    // immediate blocker.
    let leaf = ticket(&uid('L'), "documentation", vec![]);
    let mid = ticket(
        &uid('M'),
        "blocked",
        vec![text("return_lane", "programmer"), list("blocked_by", &[&uid('L')]), text("blocked_at", "2026-08-02")],
    );
    let deep = ticket(
        &uid('D'),
        "blocked",
        vec![text("return_lane", "tester"), list("blocked_by", &[&uid('M')]), text("blocked_at", "2026-08-01")],
    );

    // moved_today, and the source of a generated idea.
    let mut moved = ticket(&uid('X'), "tester", vec![]);
    moved.updated = "2026-08-03".into();

    // new_ideas: generated today, citing `moved`.
    let mut idea = ticket(&uid('I'), "ideas", vec![text("origin", "generated"), text("spawned_by", &uid('X'))]);
    idea.created = "2026-08-03".into();

    let board = vec![reviewing.clone(), unblocked.clone(), mid.clone(), deep.clone(), leaf, moved.clone(), idea.clone()];

    let stale = run(&uid('S'), &uid('X'), RunOutcome::Running);
    let runs = vec![stale.clone(), run(&uid('N'), &uid('X'), RunOutcome::Pass)];

    let digest = compose_digest(&board, &[p], &runs, &[], today);

    assert_eq!(digest.awaiting_review.len(), 1);
    assert_eq!(digest.awaiting_review[0].ticket_id, reviewing.id);
    assert_eq!(digest.awaiting_review[0].run_count, 0);

    assert_eq!(digest.newly_unblocked.len(), 1);
    assert_eq!(digest.newly_unblocked[0].ticket_id, unblocked.id);
    assert_eq!(digest.newly_unblocked[0].return_lane, "programmer");

    assert_eq!(digest.blocked.len(), 2);
    // oldest first by blocked_at
    assert_eq!(digest.blocked[0].ticket_id, deep.id);
    assert_eq!(digest.blocked[1].ticket_id, mid.id);
    // the deep chain shows the root blocker, not the nearest
    assert_eq!(digest.blocked[0].root_blockers, vec![uid('L')]);
    assert_eq!(digest.blocked[1].root_blockers, vec![uid('L')]);

    assert_eq!(digest.moved_today.len(), 1);
    assert_eq!(digest.moved_today[0].ticket_id, moved.id);
    assert_eq!(digest.moved_today[0].run_count, 2);

    assert_eq!(digest.new_ideas.len(), 1);
    assert_eq!(digest.new_ideas[0].ticket_id, idea.id);
    assert_eq!(digest.new_ideas[0].spawned_by.as_deref(), Some(moved.id.as_str()));

    assert_eq!(digest.stale_runs.len(), 1);
    assert_eq!(digest.stale_runs[0].id, stale.id);
}

#[test]
fn digest_keeps_board_order_among_equal_dates() {
    let p = pipe();
    let mut a = ticket(&uid('A'), "signoff", vec![]);
    a.updated = "2026-08-02".into();
    let mut b = ticket(&uid('B'), "signoff", vec![]);
    b.updated = "2026-08-01".into();
    let mut c = ticket(&uid('C'), "signoff", vec![]);
    c.updated = "2026-08-02".into();
    let d = compose_digest(&[a.clone(), b.clone(), c.clone()], &[p], &[], &[], "2026-08-03");
    let ids: Vec<&str> = d.awaiting_review.iter().map(|e| e.ticket_id.as_str()).collect();
    assert_eq!(ids, vec![b.id.as_str(), a.id.as_str(), c.id.as_str()]);
}

/// A lane as a definition file with only these keys reads.
fn parsed_lane(id: &str, maps_to: &str, kickoff_raw: &str, on_pass: Option<&str>) -> Lane {
    let mut l = lane(id, "", maps_to, None, None, Manual, on_pass, None);
    l.kickoff_raw = kickoff_raw.to_string();
    l
}

fn definition(lanes: Vec<Lane>) -> Pipeline {
    Pipeline {
        id: "x".into(),
        name: "x".into(),
        auto: false,
        concurrency_cap: 1,
        bounce_cap: 3,
        lanes,
        body: String::new(),
        path: "/ws/x.md".into(),
    }
}

#[test]
fn validation_catches_typos_duplicates_and_dangling_edges() {
    // `reviewing` is no task status; `todo` is.
    let p = definition(vec![
        parsed_lane("a", "reviewing", "sometimes", Some("nowhere")),
        parsed_lane("a", "todo", "", None),
    ]);
    let issues = validate_pipeline(&p, &[false, true]);
    assert!(issues.contains(&PipelineIssue::DuplicateLaneId { id: "a".into() }));
    assert!(issues.contains(&PipelineIssue::InvalidMapsTo { lane: "a".into(), value: "reviewing".into() }));
    assert!(issues.contains(&PipelineIssue::InvalidKickoff { lane: "a".into(), value: "sometimes".into() }));
    assert!(issues.contains(&PipelineIssue::UnknownTransition {
        lane: "a".into(),
        edge: "on_pass".into(),
        target: "nowhere".into()
    }));
    assert_eq!(validate_pipeline(&definition(Vec::new()), &[]), vec![PipelineIssue::NoLanes]);
}

#[test]
fn two_blocked_lanes_are_rejected() {
    let mut a = parsed_lane("a", "doing", "", None);
    a.blocked = true;
    let mut b = parsed_lane("b", "doing", "", None);
    b.blocked = true;
    assert_eq!(
        validate_pipeline(&definition(vec![a, b]), &[true, true]),
        vec![PipelineIssue::MultipleBlockedLanes { first: "a".into(), second: "b".into() }]
    );
}

#[test]
fn two_human_lanes_are_rejected() {
    let mut a = parsed_lane("a", "review", "", None);
    a.human = true;
    let mut b = parsed_lane("b", "review", "", None);
    b.human = true;
    assert_eq!(
        validate_pipeline(&definition(vec![a, b]), &[true, true]),
        vec![PipelineIssue::MultipleHumanLanes { first: "a".into(), second: "b".into() }]
    );
}

#[test]
fn validation_reports_in_a_stable_order() {
    let mut c = parsed_lane("C", "doing", "AUTO ", Some("A"));
    c.on_fail = Some("gone".into());
    c.blocked = true;
    let mut b2 = parsed_lane("c", "doing", "", None);
    b2.blocked = true;
    let p = definition(vec![parsed_lane("a", "", "", None), parsed_lane("", "x", "bad", Some("zz")), c, b2]);
    assert_eq!(
        validate_pipeline(&p, &[true, false, true, true]),
        vec![
            PipelineIssue::LaneMissingId { index: 1 },
            PipelineIssue::DuplicateLaneId { id: "c".into() },
            PipelineIssue::MultipleBlockedLanes { first: "C".into(), second: "c".into() },
            PipelineIssue::UnknownTransition { lane: "".into(), edge: "on_pass".into(), target: "zz".into() },
            PipelineIssue::UnknownTransition { lane: "C".into(), edge: "on_fail".into(), target: "gone".into() },
        ]
    );
    // The standard pipeline is clean.
    let standard = pipe();
    let known = vec![true; standard.lanes.len()];
    assert_eq!(validate_pipeline(&standard, &known), Vec::new());
}

#[test]
fn unknown_blocker_and_missing_return_lane_are_surfaced() {
    let p = pipe();
    let ghost = uid('Z');
    let blocked = ticket(
        &uid('A'),
        "blocked",
        vec![list("blocked_by", &[ghost.as_str()]), text("return_lane", "gone")],
    );
    let no_return = ticket(&uid('B'), "blocked", vec![text("block_reason", "waiting on legal")]);
    let board = vec![blocked.clone(), no_return.clone()];

    let r = attention_reasons(&blocked, &board, &[p.clone()]);
    assert!(r.contains(&AttentionReason::UnknownBlocker(ghost)));
    assert!(r.contains(&AttentionReason::UnknownReturnLane("gone".into())));

    let r2 = attention_reasons(&no_return, &board, &[p]);
    assert!(r2.contains(&AttentionReason::UnknownReturnLane(String::new())));
}

#[test]
fn unknown_lanes_and_pipelines_are_named_and_classic_tickets_pass() {
    let p = pipe();
    let orphan = ticket(&uid('A'), "programmerr", Vec::new());
    assert_eq!(
        attention_reasons(&orphan, &[orphan.clone()], &[p.clone()]),
        vec![AttentionReason::UnknownLane("programmerr".into())]
    );
    let wrong = bare(&uid('B'), "todo", vec![text("pipeline", "ghost")]);
    assert_eq!(
        attention_reasons(&wrong, &[], &[p.clone()]),
        vec![AttentionReason::UnknownPipeline("ghost".into())]
    );
    let classic = bare(&uid('C'), "whatever", Vec::new());
    assert!(attention_reasons(&classic, &[], &[p.clone()]).is_empty());
    // A blocker on the board (any case, any padding) is known; a healthy
    // blocked ticket with its way home says nothing.
    let home = ticket(
        &uid('D'),
        "blocked",
        vec![list("blocked_by", &[format!(" {} ", uid('A').to_lowercase()).as_str()]), text("return_lane", "Tester")],
    );
    assert!(attention_reasons(&home, &[orphan], &[p]).is_empty());
}

#[test]
fn accept_with_comments_composes_child_and_parent_advance() {
    let p = pipe();
    let mut parent = ticket(&uid('P'), "signoff", vec![list("projects", &["beta"])]);
    parent.project = "alpha".to_string();
    let out = compose_signoff_child(&parent, &p, "please add a migration note", "2026-08-03T00:00:00Z");
    let Ok(SignoffChild { child, parent_transition, parent_log }) = out else {
        panic!("expected Ok, got {out:?}");
    };
    assert_eq!(child.fields.lane.as_deref(), Some("todo"));
    assert_eq!(child.fields.pipeline.as_deref(), Some("default"));
    assert_eq!(child.fields.project.as_deref(), Some("alpha"));
    assert_eq!(child.fields.projects, Some(vec!["beta".to_string()]));
    assert_eq!(child.fields.parent.as_deref(), Some(parent.id.as_str()));
    assert_eq!(child.fields.origin.as_deref(), Some("signoff"));
    // The child carries no boundary of its own: there is no field for one.
    assert_eq!(child.body, "please add a migration note");

    match parent_transition {
        Transition::Moved { from, to, backward, .. } => {
            assert_eq!(from, "signoff");
            assert_eq!(to, "documentation");
            assert!(!backward);
        }
        other => panic!("expected Moved, got {other:?}"),
    }
    assert!(parent_log.contains("please add a migration note"));
}

#[test]
fn accept_with_comments_refuses_a_non_human_lane() {
    let p = pipe();
    let parent = ticket(&uid('P'), "programmer", Vec::new());
    assert_eq!(
        compose_signoff_child(&parent, &p, "a comment", "2026-08-03").unwrap_err(),
        SignoffRefusal::NotHumanLane("programmer".to_string())
    );
}

#[test]
fn accept_with_comments_refuses_an_empty_comment() {
    let p = pipe();
    let parent = ticket(&uid('P'), "signoff", Vec::new());
    assert_eq!(compose_signoff_child(&parent, &p, "   ", "2026-08-03").unwrap_err(), SignoffRefusal::EmptyComment);
}

#[test]
fn accept_with_comments_refuses_when_the_pipeline_has_no_on_pass_edge() {
    let mut p = pipe();
    for l in p.lanes.iter_mut() {
        if l.id == "signoff" {
            l.on_pass = None;
        }
    }
    assert!(p.lane("signoff").unwrap().on_pass.is_none(), "fixture: on_pass must be gone");
    let parent = ticket(&uid('P'), "signoff", Vec::new());
    assert_eq!(
        compose_signoff_child(&parent, &p, "a comment", "2026-08-03").unwrap_err(),
        SignoffRefusal::NoOnPass("signoff".to_string())
    );
}

#[test]
fn accept_with_comments_refuses_when_no_todo_lane_exists() {
    let mut signoff = lane("signoff", "Sign-off", "review", None, None, Manual, Some("documentation"), None);
    signoff.human = true;
    let mut documentation = lane("documentation", "Documentation", "done", None, None, Manual, None, None);
    documentation.terminal = true;
    let mut p = definition(vec![signoff, documentation]);
    p.id = "mini".to_string();
    let parent = bare(
        &uid('P'),
        "signoff",
        vec![text("pipeline", "mini"), list("scope", &["x"]), text("verify", "y")],
    );
    assert_eq!(compose_signoff_child(&parent, &p, "a comment", "2026-08-03").unwrap_err(), SignoffRefusal::NoTodoLane);
}

#[test]
fn sign_off_log_line_names_the_child() {
    let p = pipe();
    let parent = ticket(&uid('P'), "signoff", Vec::new());
    let out = compose_signoff_child(&parent, &p, "  fix the typo  ", "2026-08-03").unwrap();
    assert_eq!(out.child.title, format!("Sign-off comment on Ticket {}", parent.id));
    assert_eq!(out.child.body, "fix the typo");
    assert_eq!(out.child.fields.projects, None);
    assert_eq!(
        out.parent_log,
        format!("sign-off comment \u{2192} new ticket \"Sign-off comment on Ticket {}\": fix the typo", parent.id)
    );
}

#[test]
fn compose_idea_ticket_lands_in_the_ideas_lane() {
    let p = pipe();
    let idea = propose_idea("Add dark mode toggle", "body", &uid('S'), "alpha", &[], "default").unwrap();
    let nt = compose_idea_ticket(&idea, &p).unwrap();
    assert_eq!(nt.fields.lane.as_deref(), Some("ideas"));
    assert_eq!(nt.fields.spawned_by.as_deref(), Some(idea.spawned_by.as_str()));
    assert_eq!(nt.fields.origin.as_deref(), Some("generated"));
    assert_eq!(nt.title, "Add dark mode toggle");
}

#[test]
fn compose_idea_ticket_refuses_without_an_ideas_lane() {
    let mut p = definition(vec![lane("backlog", "Backlog", "backlog", None, None, Manual, None, None)]);
    p.id = "mini".to_string();
    let idea = propose_idea("Add dark mode toggle", "body", &uid('S'), "alpha", &[], "mini").unwrap();
    assert_eq!(compose_idea_ticket(&idea, &p).unwrap_err(), IdeaRefusal::NoIdeasLane);
}
