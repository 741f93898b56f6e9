//! Checking a pipeline definition: what is wrong with it as written.
//! Issues are surfaced, never repaired; a definition is human-owned.
use vstd::prelude::*;
use crate::pipeline::kinds::Kickoff;
use crate::pipeline::lanes::{resolve_idx, resolve_lane, Lane, Pipeline};
use crate::text::{chars_of, lower_s, lower_vec, str_of_lit, vec_eq, word_key};

verus! {

/// Why a definition cannot be used as written.
#[derive(Debug, Clone, PartialEq, Eq)]
pub enum PipelineIssue {
    NoLanes,
    LaneMissingId { index: usize },
    DuplicateLaneId { id: String },
    /// At most one lane may be the blocked lane.
    MultipleBlockedLanes { first: String, second: String },
    /// At most one lane may be the human lane.
    MultipleHumanLanes { first: String, second: String },
    InvalidMapsTo { lane: String, value: String },
    InvalidKickoff { lane: String, value: String },
    /// `on_pass` or `on_fail` names a lane the definition does not declare.
    UnknownTransition { lane: String, edge: String, target: String },
}

/// An issue with its text as characters.
pub enum IssueView {
    NoLanes,
    LaneMissingId(int),
    DuplicateLaneId(Seq<char>),
    MultipleBlockedLanes(Seq<char>, Seq<char>),
    MultipleHumanLanes(Seq<char>, Seq<char>),
    InvalidMapsTo(Seq<char>, Seq<char>),
    InvalidKickoff(Seq<char>, Seq<char>),
    UnknownTransition(Seq<char>, Seq<char>, Seq<char>),
}

pub open spec fn issue_view(i: PipelineIssue) -> IssueView {
    match i {
        PipelineIssue::NoLanes => IssueView::NoLanes,
        PipelineIssue::LaneMissingId { index } => IssueView::LaneMissingId(index as int),
        PipelineIssue::DuplicateLaneId { id } => IssueView::DuplicateLaneId(id@),
        PipelineIssue::MultipleBlockedLanes { first, second } => IssueView::MultipleBlockedLanes(first@, second@),
        PipelineIssue::MultipleHumanLanes { first, second } => IssueView::MultipleHumanLanes(first@, second@),
        PipelineIssue::InvalidMapsTo { lane, value } => IssueView::InvalidMapsTo(lane@, value@),
        PipelineIssue::InvalidKickoff { lane, value } => IssueView::InvalidKickoff(lane@, value@),
        PipelineIssue::UnknownTransition { lane, edge, target } => IssueView::UnknownTransition(
            lane@,
            edge@,
            target@,
        ),
    }
}

pub open spec fn issue_views(v: Seq<PipelineIssue>) -> Seq<IssueView> {
    v.map_values(|i: PipelineIssue| issue_view(i))
}

/// The first lane before `n` with an id that is the blocked lane.
pub open spec fn first_blocked(lanes: Seq<Lane>, n: int) -> Option<int>
    decreases n,
{
    if n <= 0 {
        None
    } else {
        match first_blocked(lanes, n - 1) {
            Some(f) => Some(f),
            None => if lanes[n - 1].id@.len() > 0 && lanes[n - 1].blocked {
                Some(n - 1)
            } else {
                None
            },
        }
    }
}

/// The first lane before `n` with an id that is the human lane.
pub open spec fn first_human(lanes: Seq<Lane>, n: int) -> Option<int>
    decreases n,
{
    if n <= 0 {
        None
    } else {
        match first_human(lanes, n - 1) {
            Some(f) => Some(f),
            None => if lanes[n - 1].id@.len() > 0 && lanes[n - 1].human {
                Some(n - 1)
            } else {
                None
            },
        }
    }
}

/// An earlier lane has the same id, ignoring ASCII case.
pub open spec fn id_taken(lanes: Seq<Lane>, i: int) -> bool {
    exists|j: int|
        0 <= j < i && lanes[j].id@.len() > 0 && #[trigger] lower_s(lanes[j].id@) == lower_s(lanes[i].id@)
}

/// What is wrong with lane `i` itself. `known` says whether its
/// `maps_to` names a status the task model knows.
pub open spec fn lane_issues(lanes: Seq<Lane>, known: bool, i: int) -> Seq<IssueView> {
    let l = lanes[i];
    if l.id@.len() == 0 {
        seq![IssueView::LaneMissingId(i)]
    } else {
        (if id_taken(lanes, i) {
            seq![IssueView::DuplicateLaneId(l.id@)]
        } else {
            seq![]
        }) + (if l.maps_to_raw@.len() > 0 && !known {
            seq![IssueView::InvalidMapsTo(l.id@, l.maps_to_raw@)]
        } else {
            seq![]
        }) + (if l.kickoff_raw@.len() > 0 && Kickoff::from_word(word_key(l.kickoff_raw@)).is_none() {
            seq![IssueView::InvalidKickoff(l.id@, l.kickoff_raw@)]
        } else {
            seq![]
        }) + (if l.blocked {
            match first_blocked(lanes, i) {
                Some(f) => seq![IssueView::MultipleBlockedLanes(lanes[f].id@, l.id@)],
                None => seq![],
            }
        } else {
            seq![]
        }) + (if l.human {
            match first_human(lanes, i) {
                Some(f) => seq![IssueView::MultipleHumanLanes(lanes[f].id@, l.id@)],
                None => seq![],
            }
        } else {
            seq![]
        })
    }
}

/// A transition edge that leads nowhere.
pub open spec fn edge_issue(lanes: Seq<Lane>, lane: Seq<char>, edge: Seq<char>, target: Option<String>) -> Seq<
    IssueView,
> {
    match target {
        Some(t) => if resolve_idx(lanes, t@).is_none() {
            seq![IssueView::UnknownTransition(lane, edge, t@)]
        } else {
            seq![]
        },
        None => seq![],
    }
}

/// The per-lane issues of the first `n` lanes, in lane order.
pub open spec fn lane_issues_upto(lanes: Seq<Lane>, known: Seq<bool>, n: int) -> Seq<IssueView>
    decreases n,
{
    if n <= 0 {
        seq![]
    } else {
        lane_issues_upto(lanes, known, n - 1) + lane_issues(lanes, known[n - 1], n - 1)
    }
}

/// The dangling transitions of the first `n` lanes, `on_pass` before
/// `on_fail`.
pub open spec fn edge_issues_upto(lanes: Seq<Lane>, n: int) -> Seq<IssueView>
    decreases n,
{
    if n <= 0 {
        seq![]
    } else {
        let l = lanes[n - 1];
        edge_issues_upto(lanes, n - 1) + edge_issue(lanes, l.id@, "on_pass"@, l.on_pass) + edge_issue(
            lanes,
            l.id@,
            "on_fail"@,
            l.on_fail,
        )
    }
}

/// Everything wrong with a definition, in a stable order: the lanes'
/// own issues first, then every dangling transition.
pub open spec fn validation(p: Pipeline, known: Seq<bool>) -> Seq<IssueView> {
    if p.lanes@.len() == 0 {
        seq![IssueView::NoLanes]
    } else {
        lane_issues_upto(p.lanes@, known, p.lanes@.len() as int) + edge_issues_upto(
            p.lanes@,
            p.lanes@.len() as int,
        )
    }
}

fn push_issue(out: &mut Vec<PipelineIssue>, i: PipelineIssue)
    ensures
        issue_views(final(out)@) == issue_views(old(out)@).push(issue_view(i)),
{
    let ghost before = out@;
    out.push(i);
    assert(issue_views(out@) =~= issue_views(before).push(issue_view(i)));
}

fn edge_check(out: &mut Vec<PipelineIssue>, p: &Pipeline, lane: &String, edge: &str, target: &Option<String>)
    ensures
        issue_views(final(out)@) == issue_views(old(out)@) + edge_issue(p.lanes@, lane@, edge@, *target),
{
    let ghost before = issue_views(out@);
    match target {
        Some(t) => {
            if resolve_lane(p, t.as_str()).is_none() {
                push_issue(
                    out,
                    PipelineIssue::UnknownTransition { lane: lane.clone(), edge: str_of_lit(edge), target: t.clone() },
                );
                assert(issue_views(out@) =~= before + edge_issue(p.lanes@, lane@, edge@, *target));
            } else {
                assert(issue_views(out@) =~= before + edge_issue(p.lanes@, lane@, edge@, *target));
            }
        },
        None => {
            assert(issue_views(out@) =~= before + edge_issue(p.lanes@, lane@, edge@, *target));
        },
    }
}

fn id_taken_at(p: &Pipeline, i: usize) -> (r: bool)
    requires
        i < p.lanes@.len(),
    ensures
        r == id_taken(p.lanes@, i as int),
{
    let key = lower_vec(&chars_of(p.lanes[i].id.as_str()));
    let mut j: usize = 0;
    while j < i
        invariant
            j <= i < p.lanes@.len(),
            key@ == lower_s(p.lanes@[i as int].id@),
            forall|m: int|
                0 <= m < j ==> !(p.lanes@[m].id@.len() > 0 && #[trigger] lower_s(p.lanes@[m].id@) == lower_s(
                    p.lanes@[i as int].id@,
                )),
        decreases i - j,
    {
        let other = chars_of(p.lanes[j].id.as_str());
        if other.len() > 0 && vec_eq(&lower_vec(&other), &key) {
            return true;
        }
        j = j + 1;
    }
    false
}

fn push_lane_issues(
    out: &mut Vec<PipelineIssue>,
    p: &Pipeline,
    known: bool,
    i: usize,
    blocked_first: Option<usize>,
    human_first: Option<usize>,
)
    requires
        i < p.lanes@.len(),
        p.lanes@[i as int].id@.len() > 0,
        match blocked_first {
            Some(f) => first_blocked(p.lanes@, i as int) == Some(f as int) && f < i,
            None => first_blocked(p.lanes@, i as int).is_none(),
        },
        match human_first {
            Some(f) => first_human(p.lanes@, i as int) == Some(f as int) && f < i,
            None => first_human(p.lanes@, i as int).is_none(),
        },
    ensures
        issue_views(final(out)@) == issue_views(old(out)@) + lane_issues(p.lanes@, known, i as int),
{
    let ghost lanes = p.lanes@;
    let ghost before = issue_views(out@);
    let lane = &p.lanes[i];
    if id_taken_at(p, i) {
        push_issue(out, PipelineIssue::DuplicateLaneId { id: lane.id.clone() });
    }
    if chars_of(lane.maps_to_raw.as_str()).len() > 0 && !known {
        push_issue(out, PipelineIssue::InvalidMapsTo { lane: lane.id.clone(), value: lane.maps_to_raw.clone() });
    }
    if chars_of(lane.kickoff_raw.as_str()).len() > 0 && Kickoff::parse(lane.kickoff_raw.as_str()).is_none() {
        push_issue(out, PipelineIssue::InvalidKickoff { lane: lane.id.clone(), value: lane.kickoff_raw.clone() });
    }
    if lane.blocked {
        if let Some(f) = blocked_first {
            push_issue(
                out,
                PipelineIssue::MultipleBlockedLanes { first: p.lanes[f].id.clone(), second: lane.id.clone() },
            );
        }
    }
    if lane.human {
        if let Some(f) = human_first {
            push_issue(
                out,
                PipelineIssue::MultipleHumanLanes { first: p.lanes[f].id.clone(), second: lane.id.clone() },
            );
        }
    }
    assert(issue_views(out@) =~= before + lane_issues(lanes, known, i as int));
}

/// Everything wrong with `pipeline` as written, in a stable order; empty
/// when it is usable. `maps_to_known[i]` says whether lane `i`'s
/// `maps_to` names a status the task model knows.
pub fn validate_pipeline(pipeline: &Pipeline, maps_to_known: &[bool]) -> (r: Vec<PipelineIssue>)
    requires
        maps_to_known@.len() == pipeline.lanes@.len(),
    ensures
        issue_views(r@) == validation(*pipeline, maps_to_known@),
{
    let mut out: Vec<PipelineIssue> = Vec::new();
    if pipeline.lanes.len() == 0 {
        push_issue(&mut out, PipelineIssue::NoLanes);
        return out;
    }
    let ghost lanes = pipeline.lanes@;
    let mut blocked_first: Option<usize> = None;
    let mut human_first: Option<usize> = None;
    let mut i: usize = 0;
    while i < pipeline.lanes.len()
        invariant
            i <= pipeline.lanes.len(),
            lanes == pipeline.lanes@,
            maps_to_known@.len() == lanes.len(),
            issue_views(out@) == lane_issues_upto(lanes, maps_to_known@, i as int),
            match blocked_first {
                Some(f) => first_blocked(lanes, i as int) == Some(f as int) && f < i,
                None => first_blocked(lanes, i as int).is_none(),
            },
            match human_first {
                Some(f) => first_human(lanes, i as int) == Some(f as int) && f < i,
                None => first_human(lanes, i as int).is_none(),
            },
        decreases pipeline.lanes.len() - i,
    {
        let lane = &pipeline.lanes[i];
        let ghost before = issue_views(out@);
        if chars_of(lane.id.as_str()).len() == 0 {
            push_issue(&mut out, PipelineIssue::LaneMissingId { index: i });
            assert(issue_views(out@) =~= before + lane_issues(lanes, maps_to_known@[i as int], i as int));
        } else {
            push_lane_issues(&mut out, pipeline, maps_to_known[i], i, blocked_first, human_first);
            if lane.blocked && blocked_first.is_none() {
                blocked_first = Some(i);
            }
            if lane.human && human_first.is_none() {
                human_first = Some(i);
            }
        }
        i = i + 1;
    }
    let ghost head = issue_views(out@);
    assert(head + edge_issues_upto(lanes, 0) =~= head);
    let mut j: usize = 0;
    while j < pipeline.lanes.len()
        invariant
            j <= pipeline.lanes.len(),
            lanes == pipeline.lanes@,
            head == lane_issues_upto(lanes, maps_to_known@, lanes.len() as int),
            issue_views(out@) == head + edge_issues_upto(lanes, j as int),
        decreases pipeline.lanes.len() - j,
    {
        let lane = &pipeline.lanes[j];
        edge_check(&mut out, pipeline, &lane.id, "on_pass", &lane.on_pass);
        edge_check(&mut out, pipeline, &lane.id, "on_fail", &lane.on_fail);
        proof {
            assert(issue_views(out@) =~= head + edge_issues_upto(lanes, j + 1));
        }
        j = j + 1;
    }
    out
}

} // verus!
