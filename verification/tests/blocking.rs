use ken_core::pipeline::{
    advance, block, unblock, AdvanceOutcome, BlockGraph, BlockOutcome, BlockRefusal, BlockRequest,
    FmEntry, FmValue, Kickoff, Lane, Pipeline, Runner, Task, Transition, TransitionRefusal,
    UnblockOutcome, UnblockRefusal, UnblockRequest,
};

fn uid(tag: char) -> String {
    format!("01J{}{tag}", "0".repeat(22))
}

fn text(key: &str, value: &str) -> FmEntry {
    FmEntry { key: key.to_string(), value: FmValue::Text(value.to_string()) }
}

fn list(key: &str, items: &[&str]) -> FmEntry {
    FmEntry { key: key.to_string(), value: FmValue::Sequence(items.iter().map(|s| FmValue::Text(s.to_string())).collect()) }
}

fn ticket(id: &str, status: &str, extra: Vec<FmEntry>) -> Task {
    Task {
        id: id.to_string(),
        title: format!("Ticket {id}"),
        status_raw: status.to_string(),
        project: "ken".to_string(),
        created: String::new(),
        updated: String::new(),
        lane: None,
        extra,
    }
}

fn lane(id: &str, on_pass: Option<&str>, on_fail: Option<&str>) -> Lane {
    Lane {
        id: id.to_string(),
        name: id.to_string(),
        maps_to_raw: "doing".to_string(),
        agent: Some(id.to_string()),
        model: None,
        kickoff: Kickoff::Confirm,
        kickoff_raw: "confirm".to_string(),
        on_pass: on_pass.map(str::to_string),
        on_fail: on_fail.map(str::to_string),
        writes_code: false,
        human: false,
        terminal: false,
        generative: false,
        blocked: false,
        runner: Runner::Mcp,
    }
}

fn pipe() -> Pipeline {
    let mut blocked = lane("blocked", None, None);
    blocked.agent = None;
    blocked.blocked = true;
    Pipeline {
        id: "default".into(),
        name: "Standard".into(),
        auto: false,
        concurrency_cap: 1,
        bounce_cap: 3,
        lanes: vec![
            lane("programmer", Some("tester"), None),
            lane("tester", Some("done"), Some("programmer")),
            lane("done", None, None),
            lane("review", Some("nowhere"), None),
            blocked,
        ],
        body: String::new(),
        path: String::new(),
    }
}

fn request(deps: &[&str], reason: Option<&str>) -> BlockRequest {
    BlockRequest {
        blocked_by: deps.iter().map(|s| s.to_string()).collect(),
        reason: reason.map(str::to_string),
        now: " 2026-08-03T10:00:00Z ".into(),
    }
}

#[test]
fn block_captures_the_return_lane_from_the_current_lane() {
    let p = pipe();
    let t = ticket(&uid('A'), "programmer", vec![]);
    let out = block(&t, &p, &BlockGraph::new(), &request(&[&uid('D')], Some(" vendor ")));
    match out {
        BlockOutcome::Blocked { block, patch, log } => {
            assert_eq!(block.return_lane(), "programmer");
            assert_eq!(block.blocked_by(), &[uid('D')]);
            assert_eq!(block.reason(), Some("vendor"));
            assert_eq!(block.blocked_at(), "2026-08-03T10:00:00Z");
            assert_eq!(patch.lane.as_deref(), Some("blocked"));
            assert_eq!(patch.return_lane.as_deref(), Some("programmer"));
            assert_eq!(patch.bounces, None);
            assert_eq!(log, format!("blocked · returns to programmer — blocked by {} — vendor", uid('D')));
        }
        other => panic!("expected a block, got {other:?}"),
    }
}

#[test]
fn extending_a_block_keeps_the_recorded_return_lane() {
    let p = pipe();
    let t = ticket(&uid('A'), "blocked", vec![list("blocked_by", &[&uid('D')]), text("return_lane", "tester")]);
    match block(&t, &p, &BlockGraph::new(), &request(&[&uid('E'), &uid('D')], None)) {
        BlockOutcome::Blocked { block, .. } => {
            assert_eq!(block.return_lane(), "tester");
            assert_eq!(block.blocked_by(), &[uid('D'), uid('E')]);
        }
        other => panic!("expected a block, got {other:?}"),
    }
    let orphan = ticket(&uid('A'), "blocked", vec![text("return_lane", "gone")]);
    assert_eq!(
        block(&orphan, &p, &BlockGraph::new(), &request(&[&uid('E')], None)),
        BlockOutcome::Refused { reason: BlockRefusal::MissingReturnLane }
    );
}

#[test]
fn block_refuses_paths_malformed_ids_itself_and_cycles() {
    let p = pipe();
    let t = ticket(&uid('A'), "programmer", vec![]);
    let g = BlockGraph::new();
    assert_eq!(
        block(&t, &p, &g, &request(&["notes/a.md"], None)),
        BlockOutcome::Refused { reason: BlockRefusal::PathBlocker("notes/a.md".into()) }
    );
    assert_eq!(
        block(&t, &p, &g, &request(&["not-an-id"], None)),
        BlockOutcome::Refused { reason: BlockRefusal::MalformedBlocker("not-an-id".into()) }
    );
    let lower = uid('A').to_lowercase();
    assert_eq!(
        block(&t, &p, &g, &request(&[&lower], None)),
        BlockOutcome::Refused { reason: BlockRefusal::SelfBlock(lower.clone()) }
    );
    let mut g2 = BlockGraph::new();
    g2.insert(&uid('B'), &[uid('A')]);
    match block(&t, &p, &g2, &request(&[&uid('B')], None)) {
        BlockOutcome::Refused { reason: BlockRefusal::Cycle(c) } => {
            assert_eq!(c.path, vec![uid('A'), uid('B'), uid('A')]);
        }
        other => panic!("expected a cycle refusal, got {other:?}"),
    }
    assert_eq!(
        block(&t, &p, &g, &request(&["  "], Some("  "))),
        BlockOutcome::Refused { reason: BlockRefusal::Empty }
    );
    assert_eq!(
        block(&ticket(&uid('A'), "nowhere", vec![]), &p, &g, &request(&[&uid('B')], None)),
        BlockOutcome::Refused { reason: BlockRefusal::UnknownLane { status: "nowhere".into() } }
    );
}

#[test]
fn unblock_clears_each_hold_independently() {
    let p = pipe();
    let t = ticket(
        &uid('A'),
        "blocked",
        vec![list("blocked_by", &[&uid('D')]), text("block_reason", "vendor"), text("return_lane", "tester")],
    );
    match unblock(&t, &p, &UnblockRequest { clear_deps: true, clear_reason: false }) {
        UnblockOutcome::StillBlocked { remaining_deps, remaining_reason, .. } => {
            assert!(remaining_deps.is_empty());
            assert_eq!(remaining_reason.as_deref(), Some("vendor"));
        }
        other => panic!("expected still blocked, got {other:?}"),
    }
    match unblock(&t, &p, &UnblockRequest { clear_deps: true, clear_reason: true }) {
        UnblockOutcome::Released { return_lane, reset_bounces, patch, log } => {
            assert_eq!(return_lane, "tester");
            assert!(!reset_bounces);
            assert_eq!(patch.lane.as_deref(), Some("tester"));
            assert_eq!(patch.bounces, None);
            assert_eq!(log, "unblocked · returning to tester");
        }
        other => panic!("expected a release, got {other:?}"),
    }
    assert_eq!(
        unblock(&t, &p, &UnblockRequest { clear_deps: false, clear_reason: false }),
        UnblockOutcome::Refused { reason: UnblockRefusal::Empty }
    );
    let free = ticket(&uid('F'), "tester", vec![]);
    assert_eq!(
        unblock(&free, &p, &UnblockRequest { clear_deps: true, clear_reason: true }),
        UnblockOutcome::Refused { reason: UnblockRefusal::NotBlocked }
    );
}

#[test]
fn advance_moves_forward_and_counts_bounces_up_to_the_cap() {
    let p = pipe();
    let t = ticket(&uid('A'), "programmer", vec![]);
    match advance(&t, &p, AdvanceOutcome::Pass, "now") {
        Transition::Moved { from, to, backward, bounces, log, .. } => {
            assert_eq!((from.as_str(), to.as_str(), backward, bounces), ("programmer", "tester", false, 0));
            assert_eq!(log, "programmer → tester (pass)");
        }
        other => panic!("expected a move, got {other:?}"),
    }
    let t2 = ticket(&uid('A'), "tester", vec![text("bounces", "2")]);
    match advance(&t2, &p, AdvanceOutcome::Fail, "now") {
        Transition::Moved { backward, bounces, patch, log, .. } => {
            assert!(backward);
            assert_eq!(bounces, 3);
            assert_eq!(patch.bounces, Some(3));
            assert_eq!(log, "tester → programmer (fail, bounce 3/3)");
        }
        other => panic!("expected a bounce, got {other:?}"),
    }
}

#[test]
fn a_cap_breach_blocks_instead_of_bouncing_again() {
    let p = pipe();
    let t = ticket(&uid('A'), "tester", vec![text("bounces", "3")]);
    match advance(&t, &p, AdvanceOutcome::Fail, " 2026-08-03 ") {
        Transition::Blocked { from, would_have_entered, block, patch, .. } => {
            assert_eq!(from, "tester");
            assert_eq!(would_have_entered, "programmer");
            assert_eq!(block.return_lane(), "programmer");
            assert_eq!(block.reason(), Some("exceeded retry cap (4 bounces)"));
            assert_eq!(block.blocked_at(), "2026-08-03");
            assert_eq!(patch.bounces, Some(4));
            assert!(ken_core::pipeline::is_retry_cap_reason(block.reason().unwrap()));
        }
        other => panic!("expected a block, got {other:?}"),
    }
    assert_eq!(
        advance(&ticket(&uid('A'), "done", vec![]), &p, AdvanceOutcome::Pass, "now"),
        Transition::Refused { reason: TransitionRefusal::NoEdge { lane: "done".into(), outcome: AdvanceOutcome::Pass } }
    );
    assert_eq!(
        advance(&ticket(&uid('A'), "review", vec![]), &p, AdvanceOutcome::Pass, "now"),
        Transition::Refused {
            reason: TransitionRefusal::UnknownTarget { lane: "review".into(), target: "nowhere".into() }
        }
    );
}

#[test]
fn unblocking_a_retry_capped_ticket_resets_its_bounces() {
    let p = pipe();
    let t = ticket(
        &uid('A'),
        "blocked",
        vec![text("block_reason", "exceeded retry cap (4 bounces)"), text("return_lane", "programmer"), text("bounces", "4")],
    );
    match unblock(&t, &p, &UnblockRequest { clear_deps: false, clear_reason: true }) {
        UnblockOutcome::Released { reset_bounces, patch, .. } => {
            assert!(reset_bounces);
            assert_eq!(patch.bounces, Some(0));
        }
        other => panic!("expected a release, got {other:?}"),
    }
}
