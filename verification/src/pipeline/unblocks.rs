//! Which blocked tickets are free to go home: every blocker sits in a
//! terminal lane and no reason holds them. Resolved when a ticket reaches
//! a terminal lane, and swept once over the whole board on open.
use vstd::prelude::*;
use crate::pipeline::admission::in_blocked_lane;
use crate::pipeline::block::{patch_view, PatchView, TaskPatch};
use crate::pipeline::graph::strs;
use crate::pipeline::lanes::{resolve_idx, resolve_lane, Pipeline};
use crate::pipeline::ticket::{
    fm_list, fm_str, listed_blocker, non_empty, opt_view, ticket_fields, Task,
};
use crate::text::{eq_ci, eq_ci_str};

verus! {

/// A released ticket: its id, the lane it returns to, when it was
/// blocked, and the frontmatter changes that send it back.
#[derive(Debug, Clone, PartialEq, Eq)]
pub struct Unblocked {
    pub ticket_id: String,
    pub return_lane: String,
    pub blocked_at: Option<String>,
    pub patch: TaskPatch,
}

/// A release as plain values: ticket, return lane, blocked-at, patch.
pub type UnblockedView = (Seq<char>, Seq<char>, Option<Seq<char>>, PatchView);

pub open spec fn unblocked_view(u: Unblocked) -> UnblockedView {
    (u.ticket_id@, u.return_lane@, opt_view(u.blocked_at), patch_view(u.patch))
}

pub open spec fn unblocked_views(us: Seq<Unblocked>) -> Seq<UnblockedView> {
    us.map_values(|u: Unblocked| unblocked_view(u))
}

/// The first ticket on the board with identity `id` (trimmed,
/// case-insensitive), from position `i` on.
pub open spec fn first_task(tasks: Seq<Task>, id: Seq<char>, i: int) -> Option<int>
    decreases tasks.len() - i,
{
    if i < 0 || i >= tasks.len() {
        None
    } else if eq_ci(tasks[i].id@, id) {
        Some(i)
    } else {
        first_task(tasks, id, i + 1)
    }
}

/// The ticket's status resolves to a terminal lane.
pub open spec fn in_terminal_lane(p: Pipeline, status: Seq<char>) -> bool {
    match resolve_idx(p.lanes@, status) {
        Some(k) => p.lanes@[k].terminal,
        None => false,
    }
}

/// Blocker `id` is satisfied: the first ticket with that identity sits in
/// a terminal lane. An id that names no ticket is not satisfied.
pub open spec fn blocker_done(tasks: Seq<Task>, p: Pipeline, id: Seq<char>) -> bool {
    match first_task(tasks, id, 0) {
        Some(k) => in_terminal_lane(p, tasks[k].status_raw@),
        None => false,
    }
}

/// The lane ticket `t` goes home to, when it is free to: it sits in the
/// blocked lane, names `naming` among its blockers (when a ticket is
/// named), has no reason, every blocker is done, and its recorded return
/// lane is one the pipeline declares.
pub open spec fn release_lane(
    tasks: Seq<Task>,
    p: Pipeline,
    naming: Option<Seq<char>>,
    t: Task,
) -> Option<Seq<char>> {
    let m = t.extra@;
    let deps = fm_list(m, "blocked_by"@);
    if in_blocked_lane(p, t.status_raw@) && (naming matches Some(id) ==> listed_blocker(m, id))
        && non_empty(fm_str(m, "block_reason"@)).is_none() && (forall|j: int|
        0 <= j < deps.len() ==> #[trigger] blocker_done(tasks, p, deps[j])) {
        match non_empty(fm_str(m, "return_lane"@)) {
            Some(rl) => if resolve_idx(p.lanes@, rl).is_some() {
                Some(rl)
            } else {
                None
            },
            None => None,
        }
    } else {
        None
    }
}

/// The patch that sends a freed ticket home: lane set, blockers, reason
/// and blocked-at cleared, nothing else.
pub open spec fn home_patch(rl: Seq<char>) -> PatchView {
    (
        Some(rl),
        None,
        Some(Seq::<Seq<char>>::empty()),
        Some(Seq::<char>::empty()),
        Some(Seq::<char>::empty()),
        None,
    )
}

/// The releases among the first `n` tickets, in board order.
pub open spec fn releases(
    tasks: Seq<Task>,
    p: Pipeline,
    naming: Option<Seq<char>>,
    n: int,
) -> Seq<UnblockedView>
    decreases n,
{
    if n <= 0 {
        seq![]
    } else {
        let before = releases(tasks, p, naming, n - 1);
        let t = tasks[n - 1];
        match release_lane(tasks, p, naming, t) {
            Some(rl) => before.push(
                (t.id@, rl, non_empty(fm_str(t.extra@, "blocked_at"@)), home_patch(rl)),
            ),
            None => before,
        }
    }
}

pub open spec fn opt_str_view(o: Option<&str>) -> Option<Seq<char>> {
    match o {
        Some(s) => Some(s@),
        None => None,
    }
}

fn find_task(tasks: &[Task], id: &str) -> (r: Option<usize>)
    ensures
        match r {
            Some(k) => first_task(tasks@, id@, 0) == Some(k as int) && k < tasks@.len(),
            None => first_task(tasks@, id@, 0).is_none(),
        },
{
    let mut i: usize = 0;
    while i < tasks.len()
        invariant
            i <= tasks.len(),
            first_task(tasks@, id@, 0) == first_task(tasks@, id@, i as int),
        decreases tasks.len() - i,
    {
        if eq_ci_str(tasks[i].id.as_str(), id) {
            return Some(i);
        }
        i = i + 1;
    }
    None
}

fn is_terminal(task: &Task, pipeline: &Pipeline) -> (r: bool)
    ensures
        r == in_terminal_lane(*pipeline, task.status_raw@),
{
    match resolve_lane(pipeline, task.status_raw.as_str()) {
        Some(l) => l.terminal,
        None => false,
    }
}

fn blocker_is_done(tasks: &[Task], pipeline: &Pipeline, id: &str) -> (r: bool)
    ensures
        r == blocker_done(tasks@, *pipeline, id@),
{
    match find_task(tasks, id) {
        Some(k) => is_terminal(&tasks[k], pipeline),
        None => false,
    }
}

fn lists_blocker(deps: &Vec<String>, id: &str) -> (r: bool)
    ensures
        r == exists|j: int| 0 <= j < deps@.len() && #[trigger] eq_ci(strs(deps@)[j], id@),
{
    let mut i: usize = 0;
    while i < deps.len()
        invariant
            i <= deps.len(),
            forall|j: int| 0 <= j < i ==> !#[trigger] eq_ci(strs(deps@)[j], id@),
        decreases deps.len() - i,
    {
        if eq_ci_str(deps[i].as_str(), id) {
            assert(eq_ci(strs(deps@)[i as int], id@));
            return true;
        }
        i = i + 1;
    }
    false
}

/// The release `task` earns, if it earns one.
fn release_of(tasks: &[Task], pipeline: &Pipeline, naming: Option<&str>, task: &Task) -> (r: Option<
    Unblocked,
>)
    ensures
        match release_lane(tasks@, *pipeline, opt_str_view(naming), *task) {
            Some(rl) => r matches Some(u) && unblocked_view(u) == (
                task.id@,
                rl,
                non_empty(fm_str(task.extra@, "blocked_at"@)),
                home_patch(rl),
            ),
            None => r.is_none(),
        },
{
    let fields = ticket_fields(task);
    let ghost m = task.extra@;
    let ghost deps = fm_list(m, "blocked_by"@);
    let in_blocked = match resolve_lane(pipeline, task.status_raw.as_str()) {
        Some(l) => l.blocked,
        None => false,
    };
    if !in_blocked {
        return None;
    }
    match naming {
        Some(id) => {
            if !lists_blocker(&fields.blocked_by, id) {
                proof {
                    if listed_blocker(m, id@) {
                        let j = choose|j: int| 0 <= j < deps.len() && #[trigger] eq_ci(deps[j], id@);
                        assert(eq_ci(strs(fields.blocked_by@)[j], id@));
                    }
                }
                return None;
            }
            proof {
                let j = choose|j: int|
                    0 <= j < fields.blocked_by@.len() && #[trigger] eq_ci(strs(fields.blocked_by@)[j], id@);
                assert(eq_ci(deps[j], id@));
            }
        },
        None => {},
    }
    if fields.block_reason.is_some() {
        return None;
    }
    let mut i: usize = 0;
    while i < fields.blocked_by.len()
        invariant
            i <= fields.blocked_by.len(),
            strs(fields.blocked_by@) == deps,
            deps == fm_list(task.extra@, "blocked_by"@),
            forall|j: int| 0 <= j < i ==> #[trigger] blocker_done(tasks@, *pipeline, deps[j]),
        decreases fields.blocked_by.len() - i,
    {
        if !blocker_is_done(tasks, pipeline, fields.blocked_by[i].as_str()) {
            assert(!blocker_done(tasks@, *pipeline, deps[i as int]));
            return None;
        }
        i = i + 1;
    }
    let return_lane = match fields.return_lane {
        Some(rl) => rl,
        None => {
            return None;
        },
    };
    if resolve_lane(pipeline, return_lane.as_str()).is_none() {
        return None;
    }
    let patch = TaskPatch {
        lane: Some(return_lane.clone()),
        return_lane: None,
        blocked_by: Some(Vec::new()),
        block_reason: Some(String::new()),
        blocked_at: Some(String::new()),
        bounces: None,
    };
    proof {
        let bb: Seq<String> = Seq::empty();
        assert(strs(bb) =~= Seq::<Seq<char>>::empty());
    }
    Some(
        Unblocked {
            ticket_id: task.id.clone(),
            return_lane,
            blocked_at: fields.blocked_at,
            patch,
        },
    )
}

fn evaluate_unblocks_inner(tasks: &[Task], pipeline: &Pipeline, naming: Option<&str>) -> (r: Vec<
    Unblocked,
>)
    ensures
        unblocked_views(r@) == releases(tasks@, *pipeline, opt_str_view(naming), tasks@.len() as int),
{
    let mut out: Vec<Unblocked> = Vec::new();
    let mut i: usize = 0;
    while i < tasks.len()
        invariant
            i <= tasks.len(),
            unblocked_views(out@) == releases(tasks@, *pipeline, opt_str_view(naming), i as int),
        decreases tasks.len() - i,
    {
        let ghost before = out@;
        match release_of(tasks, pipeline, naming, &tasks[i]) {
            Some(u) => {
                out.push(u);
                assert(unblocked_views(out@) =~= unblocked_views(before).push(unblocked_view(u)));
            },
            None => {},
        }
        i = i + 1;
    }
    out
}

/// The dependents of `terminal_ticket_id` that are now free, in board
/// order. Free means both halves are clear: every `blocked_by` entry names
/// a ticket sitting in a terminal lane, and no `block_reason` is left. A
/// blocker naming no ticket is not satisfied, and a missing or orphaned
/// return lane is left for a human rather than guessed.
pub fn evaluate_unblocks(tasks: &[Task], pipeline: &Pipeline, terminal_ticket_id: &str) -> (r: Vec<
    Unblocked,
>)
    ensures
        unblocked_views(r@) == releases(
            tasks@,
            *pipeline,
            Some(terminal_ticket_id@),
            tasks@.len() as int,
        ),
{
    evaluate_unblocks_inner(tasks, pipeline, Some(terminal_ticket_id))
}

/// The whole-board sweep run on open, so nothing is missed across a
/// restart.
pub fn evaluate_all_unblocks(tasks: &[Task], pipeline: &Pipeline) -> (r: Vec<Unblocked>)
    ensures
        unblocked_views(r@) == releases(tasks@, *pipeline, None, tasks@.len() as int),
{
    evaluate_unblocks_inner(tasks, pipeline, None)
}

} // verus!
