//! The single gate every start goes through. A blocked ticket is refused
//! before anything else is read, and a ticket arriving by unblock is never
//! started without a human's confirmation.
use vstd::prelude::*;
use crate::pipeline::graph::strs;
use crate::pipeline::kinds::Kickoff;
use crate::pipeline::lanes::{resolve_idx, resolve_lane, Lane, Pipeline};
use crate::pipeline::runs::{live_count, running_runs, RunRecord};
use crate::pipeline::ticket::{
    block_evidence, fm_list, fm_str, non_empty, opt_view, ticket_fields, Task,
};

verus! {

/// Why work is being offered to [`admit_start`].
#[derive(Debug, Clone, Copy, PartialEq, Eq, Hash, Structural)]
pub enum EntryKind {
    /// A human pressed the button.
    Kickoff,
    /// An agent is pulling already-authorised queued work.
    Claim,
    /// The ticket's last blocker just cleared.
    Unblock,
    /// Lane entry under an `auto` lane with the master switch on.
    AutoTransition,
}

/// Why a start became a confirmation instead.
#[derive(Debug, Clone, Copy, PartialEq, Eq, Structural)]
pub enum ConfirmReason {
    /// The lane declares `kickoff: confirm`.
    LaneGate,
    /// The lane declares `kickoff: manual` and a human asked anyway.
    ManualKickoff,
    /// No `scope` and/or no `verify`: no auto-run under any lane setting.
    MissingBoundary { scope: bool, verify: bool },
    /// The ticket arrived by unblock: always a confirmation.
    Unblocked,
    /// The lane is `auto` but the pipeline's master switch is off.
    AutoDisabled,
}

/// Why work was refused outright.
#[derive(Debug, Clone, PartialEq, Eq)]
pub enum RefusalReason {
    /// The ticket is blocked. Checked first, always.
    Blocked {
        return_lane: Option<String>,
        blocked_by: Vec<String>,
        block_reason: Option<String>,
    },
    /// A human lane has no agent and no kickoff.
    HumanLane { lane: String },
    /// A holding column: nothing to run.
    NoAgent { lane: String },
    /// A manual lane reached by something other than a human asking.
    ManualLane { lane: String },
}

/// [`admit_start`]'s verdict.
#[derive(Debug, Clone, PartialEq, Eq)]
pub enum Admission {
    /// Start the run now.
    Start,
    /// Propose a run and wait for a human.
    Confirm { reason: ConfirmReason },
    /// Authorised, but the concurrency cap is full.
    Queued { running: usize, cap: u32 },
    /// Do not start, and do not create a run record.
    Refused { reason: RefusalReason },
}

/// Everything holding a ticket, if anything is.
#[derive(Debug, Clone, PartialEq, Eq)]
pub struct BlockedState {
    pub in_blocked_lane: bool,
    pub return_lane: Option<String>,
    pub blocked_by: Vec<String>,
    pub block_reason: Option<String>,
    pub blocked_at: Option<String>,
}

/// The ticket's status resolves to the pipeline's blocked lane.
pub open spec fn in_blocked_lane(p: Pipeline, status: Seq<char>) -> bool {
    match resolve_idx(p.lanes@, status) {
        Some(k) => p.lanes@[k].blocked,
        None => false,
    }
}

/// Blocked by any of the three routes: sitting in the blocked lane,
/// carrying blockers, or carrying a reason.
pub open spec fn is_blocked(t: Task, p: Pipeline) -> bool {
    in_blocked_lane(p, t.status_raw@) || block_evidence(t.extra@)
}

/// Whether this ticket is blocked, and by what.
pub fn blocked_state(ticket: &Task, pipeline: &Pipeline) -> (r: Option<BlockedState>)
    ensures
        r.is_some() == is_blocked(*ticket, *pipeline),
        r matches Some(s) ==> {
            &&& s.in_blocked_lane == in_blocked_lane(*pipeline, ticket.status_raw@)
            &&& opt_view(s.return_lane) == non_empty(fm_str(ticket.extra@, "return_lane"@))
            &&& strs(s.blocked_by@) == fm_list(ticket.extra@, "blocked_by"@)
            &&& opt_view(s.block_reason) == non_empty(fm_str(ticket.extra@, "block_reason"@))
            &&& opt_view(s.blocked_at) == non_empty(fm_str(ticket.extra@, "blocked_at"@))
        },
{
    let fields = ticket_fields(ticket);
    let in_blocked = match resolve_lane(pipeline, ticket.status_raw.as_str()) {
        Some(l) => l.blocked,
        None => false,
    };
    if !in_blocked && fields.blocked_by.len() == 0 && fields.block_reason.is_none() {
        return None;
    }
    Some(
        BlockedState {
            in_blocked_lane: in_blocked,
            return_lane: fields.return_lane,
            blocked_by: fields.blocked_by,
            block_reason: fields.block_reason,
            blocked_at: fields.blocked_at,
        },
    )
}

/// The confirmation a missing `scope` or `verify` forces.
pub open spec fn boundary(m: Seq<crate::pipeline::ticket::FmEntry>) -> Option<ConfirmReason> {
    let scope = fm_list(m, "scope"@).len() == 0;
    let verify = non_empty(fm_str(m, "verify"@)).is_none();
    if scope || verify {
        Some(ConfirmReason::MissingBoundary { scope, verify })
    } else {
        None
    }
}

pub open spec fn or_reason(b: Option<ConfirmReason>, r: ConfirmReason) -> ConfirmReason {
    match b {
        Some(x) => x,
        None => r,
    }
}

/// The lane rule for a runnable lane: `None` refuses (a manual lane reached
/// without a human), `Some(Some(c))` asks for confirmation `c`, and
/// `Some(None)` lets the start through to the concurrency cap.
pub open spec fn gate(
    kickoff: Kickoff,
    entry: EntryKind,
    auto: bool,
    b: Option<ConfirmReason>,
) -> Option<Option<ConfirmReason>> {
    if entry == EntryKind::Unblock {
        Some(Some(or_reason(b, ConfirmReason::Unblocked)))
    } else {
        match kickoff {
            Kickoff::Manual => match entry {
                EntryKind::Kickoff => Some(Some(or_reason(b, ConfirmReason::ManualKickoff))),
                EntryKind::Claim => Some(b),
                _ => None,
            },
            Kickoff::Confirm => match entry {
                EntryKind::Claim => Some(b),
                _ => Some(Some(or_reason(b, ConfirmReason::LaneGate))),
            },
            Kickoff::Auto => if auto {
                Some(b)
            } else {
                Some(Some(or_reason(b, ConfirmReason::AutoDisabled)))
            },
        }
    }
}

/// **The single admission function.** The order is load-bearing:
/// blocked first; then lanes that can never run; then the unblock rule
/// and the lane's gate; then the concurrency cap over running records.
pub fn admit_start(
    ticket: &Task,
    lane: &Lane,
    pipeline: &Pipeline,
    runs: &[RunRecord],
    entry: EntryKind,
) -> (r: Admission)
    ensures
        // A blocked ticket is refused, whatever the lane, the switch, or
        // the cap say.
        is_blocked(*ticket, *pipeline) ==> (r matches Admission::Refused {
            reason: RefusalReason::Blocked { return_lane, blocked_by, block_reason },
        } && opt_view(return_lane) == non_empty(fm_str(ticket.extra@, "return_lane"@)) && strs(
            blocked_by@,
        ) == fm_list(ticket.extra@, "blocked_by"@) && opt_view(block_reason) == non_empty(
            fm_str(ticket.extra@, "block_reason"@),
        )),
        // Entering the blocked lane is the same refusal.
        !is_blocked(*ticket, *pipeline) && lane.blocked ==> (r matches Admission::Refused {
            reason: RefusalReason::Blocked { return_lane, blocked_by, block_reason },
        } && opt_view(return_lane) == non_empty(fm_str(ticket.extra@, "return_lane"@))
            && blocked_by@.len() == 0 && block_reason.is_none()),
        !is_blocked(*ticket, *pipeline) && !lane.blocked && lane.human ==> (r matches Admission::Refused {
            reason: RefusalReason::HumanLane { lane: l },
        } && l@ == lane.id@),
        !is_blocked(*ticket, *pipeline) && !lane.blocked && !lane.human && lane.agent.is_none() ==> (
        r matches Admission::Refused { reason: RefusalReason::NoAgent { lane: l } } && l@
            == lane.id@),
        !is_blocked(*ticket, *pipeline) && !lane.blocked && !lane.human && lane.agent.is_some()
            ==> match gate(lane.kickoff, entry, pipeline.auto, boundary(ticket.extra@)) {
            None => r matches Admission::Refused { reason: RefusalReason::ManualLane { lane: l } }
                && l@ == lane.id@,
            Some(Some(c)) => r == Admission::Confirm { reason: c },
            Some(None) => if live_count(runs@) >= pipeline.concurrency_cap {
                r matches Admission::Queued { running, cap } && running == live_count(runs@)
                    && cap == pipeline.concurrency_cap
            } else {
                r matches Admission::Start
            },
        },
        // Nothing that arrives by unblock is started.
        entry == EntryKind::Unblock ==> !(r matches Admission::Start),
{
    match blocked_state(ticket, pipeline) {
        Some(state) => {
            return Admission::Refused {
                reason: RefusalReason::Blocked {
                    return_lane: state.return_lane,
                    blocked_by: state.blocked_by,
                    block_reason: state.block_reason,
                },
            };
        },
        None => {},
    }
    if lane.blocked {
        return Admission::Refused {
            reason: RefusalReason::Blocked {
                return_lane: ticket_fields(ticket).return_lane,
                blocked_by: Vec::new(),
                block_reason: None,
            },
        };
    }
    if lane.human {
        return Admission::Refused { reason: RefusalReason::HumanLane { lane: lane.id.clone() } };
    }
    if lane.agent.is_none() {
        return Admission::Refused { reason: RefusalReason::NoAgent { lane: lane.id.clone() } };
    }
    let fields = ticket_fields(ticket);
    let missing_scope = fields.scope.len() == 0;
    let missing_verify = fields.verify.is_none();
    let bound = if missing_scope || missing_verify {
        Some(ConfirmReason::MissingBoundary { scope: missing_scope, verify: missing_verify })
    } else {
        None
    };
    assert(bound == boundary(ticket.extra@));
    if entry == EntryKind::Unblock {
        return Admission::Confirm {
            reason: match bound {
                Some(b) => b,
                None => ConfirmReason::Unblocked,
            },
        };
    }
    let confirm = match lane.kickoff {
        Kickoff::Manual => match entry {
            EntryKind::Kickoff => Some(
                match bound {
                    Some(b) => b,
                    None => ConfirmReason::ManualKickoff,
                },
            ),
            EntryKind::Claim => bound,
            _ => {
                return Admission::Refused {
                    reason: RefusalReason::ManualLane { lane: lane.id.clone() },
                };
            },
        },
        Kickoff::Confirm => match entry {
            EntryKind::Claim => bound,
            _ => Some(
                match bound {
                    Some(b) => b,
                    None => ConfirmReason::LaneGate,
                },
            ),
        },
        Kickoff::Auto => {
            if pipeline.auto {
                bound
            } else {
                Some(
                    match bound {
                        Some(b) => b,
                        None => ConfirmReason::AutoDisabled,
                    },
                )
            }
        },
    };
    match confirm {
        Some(reason) => {
            return Admission::Confirm { reason };
        },
        None => {},
    }
    let running = running_runs(runs);
    if running as u64 >= pipeline.concurrency_cap as u64 {
        return Admission::Queued { running, cap: pipeline.concurrency_cap };
    }
    Admission::Start
}

} // verus!
