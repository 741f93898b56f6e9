//! The queue view derived from the run ledger and the board: running,
//! queued and blocked records, running records this session has no live
//! memory of, and the tickets waiting at a confirmation gate.
use vstd::prelude::*;
use crate::pipeline::admission::{admit_start, boundary, gate, is_blocked, Admission, EntryKind};
use crate::pipeline::graph::{clone_strings, strs};
use crate::pipeline::kinds::RunOutcome;
use crate::pipeline::lanes::{find_pipeline, pipeline_from, resolve_idx, resolve_lane, Lane, Pipeline};
use crate::pipeline::runs::RunRecord;
use crate::pipeline::ticket::{fm_str, non_empty, ticket_pipeline, Task};
use crate::text::str_eq;

verus! {

/// The ledger-derived queue.
#[derive(Debug, Clone, PartialEq, Eq)]
pub struct RunQueue {
    pub running: Vec<RunRecord>,
    pub queued: Vec<RunRecord>,
    pub blocked: Vec<RunRecord>,
    /// Running records this session has no live memory of.
    pub stale: Vec<RunRecord>,
    /// Ticket ids currently sitting at a confirmation gate.
    pub waiting_human: Vec<String>,
}

impl Default for RunQueue {
    fn default() -> (r: Self)
        ensures
            r.running@.len() == 0,
            r.queued@.len() == 0,
            r.blocked@.len() == 0,
            r.stale@.len() == 0,
            r.waiting_human@.len() == 0,
    {
        RunQueue {
            running: Vec::new(),
            queued: Vec::new(),
            blocked: Vec::new(),
            stale: Vec::new(),
            waiting_human: Vec::new(),
        }
    }
}

/// Two records carry the same values.
pub open spec fn same_run(a: RunRecord, b: RunRecord) -> bool {
    &&& a.id@ == b.id@
    &&& a.ticket@ == b.ticket@
    &&& a.pipeline@ == b.pipeline@
    &&& a.lane@ == b.lane@
    &&& a.agent@ == b.agent@
    &&& a.model@ == b.model@
    &&& strs(a.scope@) == strs(b.scope@)
    &&& a.verify@ == b.verify@
    &&& a.started@ == b.started@
    &&& a.ended@ == b.ended@
    &&& a.outcome == b.outcome
    &&& a.outcome_raw@ == b.outcome_raw@
    &&& strs(a.artifacts@) == strs(b.artifacts@)
    &&& a.report@ == b.report@
}

/// `xs` holds, position by position, the same records as `ys`.
pub open spec fn same_runs(xs: Seq<RunRecord>, ys: Seq<RunRecord>) -> bool {
    xs.len() == ys.len() && forall|i: int| 0 <= i < xs.len() ==> #[trigger] same_run(xs[i], ys[i])
}

fn copy_run(r: &RunRecord) -> (c: RunRecord)
    ensures
        same_run(c, *r),
{
    RunRecord {
        id: r.id.clone(),
        ticket: r.ticket.clone(),
        pipeline: r.pipeline.clone(),
        lane: r.lane.clone(),
        agent: r.agent.clone(),
        model: r.model.clone(),
        scope: clone_strings(&r.scope),
        verify: r.verify.clone(),
        started: r.started.clone(),
        ended: r.ended.clone(),
        outcome: r.outcome,
        outcome_raw: r.outcome_raw.clone(),
        artifacts: clone_strings(&r.artifacts),
        report: r.report.clone(),
    }
}

/// The id is one this session saw running.
pub open spec fn known_id(known: Seq<String>, id: Seq<char>) -> bool {
    exists|j: int| 0 <= j < known.len() && #[trigger] known[j]@ == id
}

/// Which bucket a record lands in: running (0), queued (1), blocked (2),
/// stale (3), or none (closed records).
pub open spec fn bucket_of(r: RunRecord, known: Seq<String>) -> int {
    match r.outcome {
        Some(RunOutcome::Running) => if known_id(known, r.id@) {
            0
        } else {
            3
        },
        Some(RunOutcome::Queued) => 1,
        Some(RunOutcome::Blocked) => 2,
        _ => 4,
    }
}

/// The records among the first `n` that land in bucket `b`, in ledger
/// order.
pub open spec fn in_bucket(runs: Seq<RunRecord>, known: Seq<String>, b: int, n: int) -> Seq<
    RunRecord,
>
    decreases n,
{
    if n <= 0 {
        seq![]
    } else if bucket_of(runs[n - 1], known) == b {
        in_bucket(runs, known, b, n - 1).push(runs[n - 1])
    } else {
        in_bucket(runs, known, b, n - 1)
    }
}

/// What a human's kickoff of `t` in `lane` comes to a confirmation.
pub open spec fn kickoff_confirms(t: Task, lane: Lane, p: Pipeline) -> bool {
    &&& !is_blocked(t, p)
    &&& !lane.blocked
    &&& !lane.human
    &&& lane.agent.is_some()
    &&& gate(lane.kickoff, EntryKind::Kickoff, p.auto, boundary(t.extra@)) matches Some(Some(_))
}

/// Ticket `t` sits at a confirmation gate: it names a known pipeline, its
/// status resolves to a lane there, and a kickoff would be confirmed.
pub open spec fn awaits_human(pipelines: Seq<Pipeline>, t: Task) -> bool {
    match non_empty(fm_str(t.extra@, "pipeline"@)) {
        Some(pid) => match pipeline_from(pipelines, pid, 0) {
            Some(k) => match resolve_idx(pipelines[k].lanes@, t.status_raw@) {
                Some(l) => kickoff_confirms(t, pipelines[k].lanes@[l], pipelines[k]),
                None => false,
            },
            None => false,
        },
        None => false,
    }
}

/// The ids of the first `n` tickets that await a human, in board order.
pub open spec fn awaiting_ids(tasks: Seq<Task>, pipelines: Seq<Pipeline>, n: int) -> Seq<Seq<char>>
    decreases n,
{
    if n <= 0 {
        seq![]
    } else if awaits_human(pipelines, tasks[n - 1]) {
        awaiting_ids(tasks, pipelines, n - 1).push(tasks[n - 1].id@)
    } else {
        awaiting_ids(tasks, pipelines, n - 1)
    }
}

fn awaits(task: &Task, pipelines: &[Pipeline], runs: &[RunRecord]) -> (r: bool)
    ensures
        r == awaits_human(pipelines@, *task),
{
    let pipeline_id = match ticket_pipeline(task) {
        Some(id) => id,
        None => {
            return false;
        },
    };
    let pipeline = match find_pipeline(pipelines, pipeline_id.as_str()) {
        Some(p) => p,
        None => {
            return false;
        },
    };
    let lane = match resolve_lane(pipeline, task.status_raw.as_str()) {
        Some(l) => l,
        None => {
            return false;
        },
    };
    match admit_start(task, lane, pipeline, runs, EntryKind::Kickoff) {
        Admission::Confirm { .. } => true,
        _ => false,
    }
}

/// The tickets sitting at a confirmation gate right now: those a human's
/// kickoff would have confirmed rather than started, refused or queued.
/// Blocked tickets are not among them.
pub fn waiting_on_human<'a>(tasks: &'a [Task], pipelines: &[Pipeline], runs: &[RunRecord]) -> (r:
    Vec<&'a Task>)
    ensures
        r@.len() <= tasks@.len(),
        r@.map_values(|t: &Task| t.id@) == awaiting_ids(tasks@, pipelines@, tasks@.len() as int),
        forall|i: int| 0 <= i < r@.len() ==> awaits_human(pipelines@, *#[trigger] r@[i]),
{
    let mut out: Vec<&'a Task> = Vec::new();
    let mut i: usize = 0;
    while i < tasks.len()
        invariant
            i <= tasks.len(),
            out@.len() <= i,
            out@.map_values(|t: &Task| t.id@) == awaiting_ids(tasks@, pipelines@, i as int),
            forall|k: int| 0 <= k < out@.len() ==> awaits_human(pipelines@, *#[trigger] out@[k]),
        decreases tasks.len() - i,
    {
        let t = &tasks[i];
        let ghost before = out@;
        if awaits(t, pipelines, runs) {
            out.push(t);
            assert(out@.map_values(|t: &Task| t.id@) =~= before.map_values(|t: &Task| t.id@).push(
                t.id@,
            ));
        }
        i = i + 1;
    }
    out
}

fn is_known(known: &[String], id: &str) -> (r: bool)
    ensures
        r == known_id(known@, id@),
{
    let mut j: usize = 0;
    while j < known.len()
        invariant
            j <= known.len(),
            forall|k: int| 0 <= k < j ==> #[trigger] known@[k]@ != id@,
        decreases known.len() - j,
    {
        if str_eq(known[j].as_str(), id) {
            assert(known@[j as int]@ == id@);
            return true;
        }
        j = j + 1;
    }
    false
}

/// Derive the full queue view from the ledger plus the board. A running
/// record whose id is not among `known_running_ids` (the runs this session
/// has itself seen running) is stale: a fresh open passes none, so every
/// running record already on disk reads as stale, never as passed.
pub fn derive_queue(
    tasks: &[Task],
    pipelines: &[Pipeline],
    runs: &[RunRecord],
    known_running_ids: &[String],
) -> (q: RunQueue)
    ensures
        same_runs(q.running@, in_bucket(runs@, known_running_ids@, 0, runs@.len() as int)),
        same_runs(q.queued@, in_bucket(runs@, known_running_ids@, 1, runs@.len() as int)),
        same_runs(q.blocked@, in_bucket(runs@, known_running_ids@, 2, runs@.len() as int)),
        same_runs(q.stale@, in_bucket(runs@, known_running_ids@, 3, runs@.len() as int)),
        strs(q.waiting_human@) == awaiting_ids(tasks@, pipelines@, tasks@.len() as int),
{
    let mut running: Vec<RunRecord> = Vec::new();
    let mut queued: Vec<RunRecord> = Vec::new();
    let mut blocked: Vec<RunRecord> = Vec::new();
    let mut stale: Vec<RunRecord> = Vec::new();
    let mut i: usize = 0;
    while i < runs.len()
        invariant
            i <= runs.len(),
            same_runs(running@, in_bucket(runs@, known_running_ids@, 0, i as int)),
            same_runs(queued@, in_bucket(runs@, known_running_ids@, 1, i as int)),
            same_runs(blocked@, in_bucket(runs@, known_running_ids@, 2, i as int)),
            same_runs(stale@, in_bucket(runs@, known_running_ids@, 3, i as int)),
        decreases runs.len() - i,
    {
        let r = &runs[i];
        match r.outcome {
            Some(RunOutcome::Running) => {
                if is_known(known_running_ids, r.id.as_str()) {
                    running.push(copy_run(r));
                } else {
                    stale.push(copy_run(r));
                }
            },
            Some(RunOutcome::Queued) => {
                queued.push(copy_run(r));
            },
            Some(RunOutcome::Blocked) => {
                blocked.push(copy_run(r));
            },
            _ => {},
        }
        i = i + 1;
    }
    let waiting = waiting_on_human(tasks, pipelines, runs);
    let mut ids: Vec<String> = Vec::new();
    let mut j: usize = 0;
    while j < waiting.len()
        invariant
            j <= waiting.len(),
            strs(ids@) == waiting@.map_values(|t: &Task| t.id@).take(j as int),
        decreases waiting.len() - j,
    {
        ids.push(waiting[j].id.clone());
        assert(waiting@.map_values(|t: &Task| t.id@).take(j + 1) =~= waiting@.map_values(
            |t: &Task| t.id@,
        ).take(j as int).push(waiting@[j as int].id@));
        j = j + 1;
    }
    assert(waiting@.map_values(|t: &Task| t.id@).take(waiting@.len() as int) =~= waiting@.map_values(
        |t: &Task| t.id@,
    ));
    RunQueue { running, queued, blocked, stale, waiting_human: ids }
}

} // verus!
