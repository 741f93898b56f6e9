//! The pipeline's half of the needs-attention tray: hand edits and lane
//! renames that left a ticket pointing at nothing. Each is surfaced with
//! the file untouched, never migrated.
use vstd::prelude::*;
use crate::pipeline::lanes::{find_pipeline, pipeline_from, resolve_idx, resolve_lane, Pipeline};
use crate::pipeline::ticket::{fm_list, fm_str, non_empty, ticket_fields, Task};
use crate::text::{eq_ci, eq_ci_str};

verus! {

/// Why a pipeline ticket needs a person's eye.
#[derive(Debug, Clone, PartialEq, Eq)]
pub enum AttentionReason {
    /// `pipeline:` names no known pipeline.
    UnknownPipeline(String),
    /// The status names no lane of the ticket's pipeline.
    UnknownLane(String),
    /// A blocked ticket with no return lane, or one naming no lane; empty
    /// when it is missing.
    UnknownReturnLane(String),
    /// `blocked_by` names a ticket that is not on the board.
    UnknownBlocker(String),
}

pub enum ReasonView {
    UnknownPipeline(Seq<char>),
    UnknownLane(Seq<char>),
    UnknownReturnLane(Seq<char>),
    UnknownBlocker(Seq<char>),
}

pub open spec fn reason_view(r: AttentionReason) -> ReasonView {
    match r {
        AttentionReason::UnknownPipeline(s) => ReasonView::UnknownPipeline(s@),
        AttentionReason::UnknownLane(s) => ReasonView::UnknownLane(s@),
        AttentionReason::UnknownReturnLane(s) => ReasonView::UnknownReturnLane(s@),
        AttentionReason::UnknownBlocker(s) => ReasonView::UnknownBlocker(s@),
    }
}

pub open spec fn reason_views(v: Seq<AttentionReason>) -> Seq<ReasonView> {
    v.map_values(|r: AttentionReason| reason_view(r))
}

/// Some ticket on the board has id `id` (trimmed, ignoring ASCII case).
pub open spec fn on_board(board: Seq<Task>, id: Seq<char>) -> bool {
    exists|i: int| 0 <= i < board.len() && eq_ci(#[trigger] board[i].id@, id)
}

/// The unknown blockers among the first `n` of `blockers`, in order.
pub open spec fn unknown_blockers(board: Seq<Task>, blockers: Seq<Seq<char>>, n: int) -> Seq<ReasonView>
    decreases n,
{
    if n <= 0 {
        seq![]
    } else {
        let prev = unknown_blockers(board, blockers, n - 1);
        if on_board(board, blockers[n - 1]) {
            prev
        } else {
            prev.push(ReasonView::UnknownBlocker(blockers[n - 1]))
        }
    }
}

/// What the tray says of `task`: nothing for a ticket outside any
/// pipeline; an unknown pipeline alone; otherwise an unknown lane, a
/// missing or unknown return lane of a blocked ticket, and each unknown
/// blocker, in that order.
pub open spec fn attention(task: Task, board: Seq<Task>, pipelines: Seq<Pipeline>) -> Seq<ReasonView> {
    let m = task.extra@;
    match non_empty(fm_str(m, "pipeline"@)) {
        None => seq![],
        Some(pid) => match pipeline_from(pipelines, pid, 0) {
            None => seq![ReasonView::UnknownPipeline(pid)],
            Some(k) => {
                let lanes = pipelines[k].lanes@;
                let lane = resolve_idx(lanes, task.status_raw@);
                let in_blocked_lane = match lane {
                    Some(j) => lanes[j].blocked,
                    None => false,
                };
                let blockers = fm_list(m, "blocked_by"@);
                let blocked = in_blocked_lane || blockers.len() > 0 || non_empty(fm_str(m, "block_reason"@)) is Some;
                (if lane is None {
                    seq![ReasonView::UnknownLane(task.status_raw@)]
                } else {
                    seq![]
                }) + (match non_empty(fm_str(m, "return_lane"@)) {
                    Some(rl) => if resolve_idx(lanes, rl).is_none() {
                        seq![ReasonView::UnknownReturnLane(rl)]
                    } else {
                        seq![]
                    },
                    None => if blocked {
                        seq![ReasonView::UnknownReturnLane(seq![])]
                    } else {
                        seq![]
                    },
                }) + unknown_blockers(board, blockers, blockers.len() as int)
            },
        },
    }
}

fn on_board_exec(board: &[Task], id: &str) -> (r: bool)
    ensures
        r == on_board(board@, id@),
{
    let mut i: usize = 0;
    while i < board.len()
        invariant
            i <= board.len(),
            forall|k: int| 0 <= k < i ==> !eq_ci(#[trigger] board@[k].id@, id@),
        decreases board.len() - i,
    {
        if eq_ci_str(board[i].id.as_str(), id) {
            return true;
        }
        i = i + 1;
    }
    false
}

fn push_reason(out: &mut Vec<AttentionReason>, r: AttentionReason)
    ensures
        reason_views(final(out)@) == reason_views(old(out)@).push(reason_view(r)),
{
    let ghost before = out@;
    out.push(r);
    assert(reason_views(out@) =~= reason_views(before).push(reason_view(r)));
}

/// Why `task` needs attention on its pipeline's board (`board` is every
/// ticket); empty when nothing is wrong.
pub fn attention_reasons(task: &Task, board: &[Task], pipelines: &[Pipeline]) -> (r: Vec<AttentionReason>)
    ensures
        reason_views(r@) == attention(*task, board@, pipelines@),
{
    let mut out: Vec<AttentionReason> = Vec::new();
    let fields = ticket_fields(task);
    let pipeline_id = match fields.pipeline {
        Some(p) => p,
        None => return out,
    };
    let pipeline = match find_pipeline(pipelines, pipeline_id.as_str()) {
        Some(p) => p,
        None => {
            push_reason(&mut out, AttentionReason::UnknownPipeline(pipeline_id));
            return out;
        },
    };
    let ghost head0 = reason_views(out@);
    assert(head0 =~= Seq::<ReasonView>::empty());
    let lane = resolve_lane(pipeline, task.status_raw.as_str());
    if lane.is_none() {
        push_reason(&mut out, AttentionReason::UnknownLane(task.status_raw.clone()));
    }
    let ghost after_lane = reason_views(out@);
    let in_blocked_lane = match lane {
        Some(l) => l.blocked,
        None => false,
    };
    let blocked = in_blocked_lane || fields.blocked_by.len() > 0 || fields.block_reason.is_some();
    proof {
        reveal_strlit("");
    }
    let ghost rl_spec = non_empty(fm_str(task.extra@, "return_lane"@));
    assert(crate::pipeline::ticket::opt_view(fields.return_lane) == rl_spec);
    match &fields.return_lane {
        Some(rl) => {
            assert(rl_spec == Some(rl@));
            if resolve_lane(pipeline, rl.as_str()).is_none() {
                push_reason(&mut out, AttentionReason::UnknownReturnLane(rl.clone()));
            }
        },
        None => {
            assert(rl_spec.is_none());
            if blocked {
                let empty = crate::text::str_of_lit("");
                assert(empty@ =~= Seq::<char>::empty());
                push_reason(&mut out, AttentionReason::UnknownReturnLane(empty));
            }
        },
    }
    let ghost head = reason_views(out@);
    let ghost blockers = fm_list(task.extra@, "blocked_by"@);
    assert(head + unknown_blockers(board@, blockers, 0) =~= head);
    let mut i: usize = 0;
    while i < fields.blocked_by.len()
        invariant
            i <= fields.blocked_by@.len(),
            blockers == fm_list(task.extra@, "blocked_by"@),
            crate::pipeline::graph::strs(fields.blocked_by@) == blockers,
            reason_views(out@) == head + unknown_blockers(board@, blockers, i as int),
        decreases fields.blocked_by.len() - i,
    {
        let b = &fields.blocked_by[i];
        assert(blockers[i as int] == b@);
        if !on_board_exec(board, b.as_str()) {
            push_reason(&mut out, AttentionReason::UnknownBlocker(b.clone()));
        }
        assert(reason_views(out@) =~= head + unknown_blockers(board@, blockers, i + 1));
        i = i + 1;
    }
    proof {
        reveal_strlit("");
        let m = task.extra@;
        let pid = non_empty(fm_str(m, "pipeline"@)).unwrap();
        assert(pid == pipeline_id@);
        let k = pipeline_from(pipelines@, pid, 0).unwrap();
        assert(pipelines@[k] == *pipeline);
        let lanes = pipeline.lanes@;
        assert(blockers.len() == fields.blocked_by@.len());
        let lane_part = if resolve_idx(lanes, task.status_raw@) is None {
            seq![ReasonView::UnknownLane(task.status_raw@)]
        } else {
            seq![]
        };
        let in_bl = match resolve_idx(lanes, task.status_raw@) {
            Some(j) => lanes[j].blocked,
            None => false,
        };
        assert(in_blocked_lane == in_bl);
        assert(blocked == (in_bl || blockers.len() > 0 || non_empty(fm_str(m, "block_reason"@)) is Some));
        let ret_part = match non_empty(fm_str(m, "return_lane"@)) {
            Some(rl) => if resolve_idx(lanes, rl).is_none() {
                seq![ReasonView::UnknownReturnLane(rl)]
            } else {
                seq![]
            },
            None => if blocked {
                seq![ReasonView::UnknownReturnLane(seq![])]
            } else {
                seq![]
            },
        };
        assert(after_lane =~= lane_part);
        assert(head =~= after_lane + ret_part);
    }
    out
}

} // verus!
