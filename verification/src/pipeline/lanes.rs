//! Lanes are data: a pipeline is an ordered list of them, and a ticket's
//! `status` names its lane, compared trimmed and case-insensitively.
use vstd::prelude::*;
use crate::pipeline::kinds::{Kickoff, Runner};
use crate::text::{eq_ci, eq_ci_str, trim_ws, is_blank};

verus! {

/// One column of a pipeline.
#[derive(Debug, Clone, PartialEq, Eq)]
pub struct Lane {
    /// Exactly the string a ticket's `status` holds.
    pub id: String,
    pub name: String,
    /// The classic status this lane projects onto, as written.
    pub maps_to_raw: String,
    /// `None` for a holding column; such a lane never starts a run.
    pub agent: Option<String>,
    pub model: Option<String>,
    pub kickoff: Kickoff,
    pub kickoff_raw: String,
    pub on_pass: Option<String>,
    pub on_fail: Option<String>,
    pub writes_code: bool,
    /// A review lane: no agent, no kickoff.
    pub human: bool,
    /// Reaching this lane resolves dependents.
    pub terminal: bool,
    /// This lane files new ideas back into the ideas lane.
    pub generative: bool,
    /// The one lane stuck work waits in.
    pub blocked: bool,
    pub runner: Runner,
}

impl Lane {
    /// A lane that can never start a run: no agent, a human lane, or the
    /// blocked lane itself.
    pub fn is_holding(&self) -> (r: bool)
        ensures
            r == (self.agent.is_none() || self.human || self.blocked),
    {
        self.agent.is_none() || self.human || self.blocked
    }
}

/// One ordered lane set.
#[derive(Debug, Clone, PartialEq, Eq)]
pub struct Pipeline {
    pub id: String,
    pub name: String,
    /// The master switch: `auto` lanes act as `confirm` until it is on.
    pub auto: bool,
    pub concurrency_cap: u32,
    pub bounce_cap: u32,
    pub lanes: Vec<Lane>,
    /// The per-lane brief material handed to agents at kickoff.
    pub body: String,
    pub path: String,
}

/// The first lane from `i` on whose id matches `s`.
pub open spec fn lane_from(lanes: Seq<Lane>, s: Seq<char>, i: int) -> Option<int>
    decreases lanes.len() - i,
{
    if i < 0 || i >= lanes.len() {
        None
    } else if eq_ci(lanes[i].id@, s) {
        Some(i)
    } else {
        lane_from(lanes, s, i + 1)
    }
}

/// The lane a status names: the first lane when the status is blank (the
/// intake column), else the first lane whose id matches.
pub open spec fn resolve_idx(lanes: Seq<Lane>, status: Seq<char>) -> Option<int> {
    if trim_ws(status).len() == 0 {
        if lanes.len() > 0 {
            Some(0)
        } else {
            None
        }
    } else {
        lane_from(lanes, status, 0)
    }
}

proof fn lemma_lane_from_bounds(lanes: Seq<Lane>, s: Seq<char>, i: int)
    requires
        i >= 0,
    ensures
        lane_from(lanes, s, i) matches Some(k) ==> 0 <= i <= k < lanes.len() && eq_ci(lanes[k].id@, s),
        lane_from(lanes, s, i) is None ==> forall|k: int| i <= k < lanes.len() ==> !#[trigger] eq_ci(lanes[k].id@, s),
    decreases lanes.len() - i,
{
    if 0 <= i < lanes.len() && !eq_ci(lanes[i].id@, s) {
        lemma_lane_from_bounds(lanes, s, i + 1);
    }
}

fn lane_position(lanes: &Vec<Lane>, s: &str) -> (r: Option<usize>)
    ensures
        match r {
            Some(k) => lane_from(lanes@, s@, 0) == Some(k as int),
            None => lane_from(lanes@, s@, 0).is_none(),
        },
{
    let mut i: usize = 0;
    while i < lanes.len()
        invariant
            i <= lanes.len(),
            lane_from(lanes@, s@, 0) == lane_from(lanes@, s@, i as int),
        decreases lanes.len() - i,
    {
        if eq_ci_str(lanes[i].id.as_str(), s) {
            return Some(i);
        }
        i = i + 1;
    }
    None
}

/// The lane vocabulary check: which lane of `pipeline` a `status` names.
pub fn resolve_lane<'a>(pipeline: &'a Pipeline, status_raw: &str) -> (r: Option<&'a Lane>)
    ensures
        match resolve_idx(pipeline.lanes@, status_raw@) {
            Some(k) => r matches Some(l) && 0 <= k < pipeline.lanes@.len() && *l == pipeline.lanes@[k],
            None => r.is_none(),
        },
{
    proof {
        lemma_lane_from_bounds(pipeline.lanes@, status_raw@, 0);
    }
    if is_blank(status_raw) {
        if pipeline.lanes.len() > 0 {
            return Some(&pipeline.lanes[0]);
        }
        return None;
    }
    match lane_position(&pipeline.lanes, status_raw) {
        Some(k) => Some(&pipeline.lanes[k]),
        None => None,
    }
}

/// A lane's position in definition order: the order `advance` uses to
/// tell a backward move.
pub fn lane_index(pipeline: &Pipeline, lane_id: &str) -> (r: Option<usize>)
    ensures
        match r {
            Some(k) => lane_from(pipeline.lanes@, lane_id@, 0) == Some(k as int),
            None => lane_from(pipeline.lanes@, lane_id@, 0).is_none(),
        },
{
    lane_position(&pipeline.lanes, lane_id)
}

/// The first lane marked by `flag`.
pub open spec fn first_flagged(lanes: Seq<Lane>, blocked: bool, i: int) -> Option<int>
    decreases lanes.len() - i,
{
    if i < 0 || i >= lanes.len() {
        None
    } else if (if blocked {
        lanes[i].blocked
    } else {
        lanes[i].human
    }) {
        Some(i)
    } else {
        first_flagged(lanes, blocked, i + 1)
    }
}

fn flagged_position(lanes: &Vec<Lane>, blocked: bool) -> (r: Option<usize>)
    ensures
        match r {
            Some(k) => k < lanes@.len() && first_flagged(lanes@, blocked, 0) == Some(k as int),
            None => first_flagged(lanes@, blocked, 0).is_none(),
        },
{
    let mut i: usize = 0;
    while i < lanes.len()
        invariant
            i <= lanes.len(),
            first_flagged(lanes@, blocked, 0) == first_flagged(lanes@, blocked, i as int),
        decreases lanes.len() - i,
    {
        let hit = if blocked {
            lanes[i].blocked
        } else {
            lanes[i].human
        };
        if hit {
            return Some(i);
        }
        i = i + 1;
    }
    None
}

impl Pipeline {
    /// The lane a status names.
    pub fn lane(&self, id: &str) -> (r: Option<&Lane>)
        ensures
            match resolve_idx(self.lanes@, id@) {
                Some(k) => r matches Some(l) && 0 <= k < self.lanes@.len() && *l == self.lanes@[k],
                None => r.is_none(),
            },
    {
        resolve_lane(self, id)
    }

    /// The first lane with `blocked: true`, if any.
    pub fn blocked_lane(&self) -> (r: Option<&Lane>)
        ensures
            match first_flagged(self.lanes@, true, 0) {
                Some(k) => r matches Some(l) && 0 <= k < self.lanes@.len() && *l == self.lanes@[k],
                None => r.is_none(),
            },
    {
        match flagged_position(&self.lanes, true) {
            Some(k) => Some(&self.lanes[k]),
            None => None,
        }
    }

    /// The first lane with `human: true`, if any.
    pub fn human_lane(&self) -> (r: Option<&Lane>)
        ensures
            match first_flagged(self.lanes@, false, 0) {
                Some(k) => r matches Some(l) && 0 <= k < self.lanes@.len() && *l == self.lanes@[k],
                None => r.is_none(),
            },
    {
        match flagged_position(&self.lanes, false) {
            Some(k) => Some(&self.lanes[k]),
            None => None,
        }
    }
}

/// The first pipeline from `i` on whose id matches.
pub open spec fn pipeline_from(ps: Seq<Pipeline>, id: Seq<char>, i: int) -> Option<int>
    decreases ps.len() - i,
{
    if i < 0 || i >= ps.len() {
        None
    } else if eq_ci(ps[i].id@, id) {
        Some(i)
    } else {
        pipeline_from(ps, id, i + 1)
    }
}

pub fn find_pipeline<'a>(pipelines: &'a [Pipeline], id: &str) -> (r: Option<&'a Pipeline>)
    ensures
        match pipeline_from(pipelines@, id@, 0) {
            Some(k) => r matches Some(p) && 0 <= k < pipelines@.len() && *p == pipelines@[k],
            None => r.is_none(),
        },
{
    let mut i: usize = 0;
    while i < pipelines.len()
        invariant
            i <= pipelines.len(),
            pipeline_from(pipelines@, id@, 0) == pipeline_from(pipelines@, id@, i as int),
        decreases pipelines.len() - i,
    {
        if eq_ci_str(pipelines[i].id.as_str(), id) {
            return Some(&pipelines[i]);
        }
        i = i + 1;
    }
    None
}

} // verus!
