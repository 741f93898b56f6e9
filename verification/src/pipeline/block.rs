//! The one mechanism for stuck work. A block captures the ticket's return
//! lane itself, from the ticket's current lane; blockers are ticket ids,
//! never paths; and an edge that would close a dependency cycle is
//! refused before anything is written.
use vstd::prelude::*;
use crate::pipeline::graph::{
    check_cycle, clone_strings, insert_view, join, join_vec, norm, reachable, strs, BlockGraph,
    CyclePath, GraphView,
};
use crate::pipeline::kinds::AdvanceOutcome;
use crate::pipeline::lanes::{first_flagged, lane_from, resolve_idx, resolve_lane, Lane, Pipeline};
use crate::pipeline::ticket::{fm_list, fm_str, non_empty, opt_view, ticket_fields, Task};
use crate::text::{
    chars_of, eq_ci, eq_ci_str, is_ascii_digit, is_ascii_lower, is_ascii_upper, push_all, push_str,
    string_of, trim_vec, trim_ws, upper_c,
};

verus! {

/// Exactly the frontmatter keys a pipeline write sets; `None` leaves a key
/// alone.
#[derive(Debug, Clone, PartialEq, Eq)]
pub struct TaskPatch {
    pub lane: Option<String>,
    pub return_lane: Option<String>,
    pub blocked_by: Option<Vec<String>>,
    pub block_reason: Option<String>,
    pub blocked_at: Option<String>,
    pub bounces: Option<u32>,
}

pub type PatchView = (
    Option<Seq<char>>,
    Option<Seq<char>>,
    Option<Seq<Seq<char>>>,
    Option<Seq<char>>,
    Option<Seq<char>>,
    Option<u32>,
);

pub open spec fn patch_view(p: TaskPatch) -> PatchView {
    (
        opt_view(p.lane),
        opt_view(p.return_lane),
        match p.blocked_by {
            Some(v) => Some(strs(v@)),
            None => None,
        },
        opt_view(p.block_reason),
        opt_view(p.blocked_at),
        p.bounces,
    )
}

impl Default for TaskPatch {
    fn default() -> (r: Self)
        ensures
            patch_view(r) == (
                None::<Seq<char>>,
                None::<Seq<char>>,
                None::<Seq<Seq<char>>>,
                None::<Seq<char>>,
                None::<Seq<char>>,
                None::<u32>,
            ),
    {
        TaskPatch {
            lane: None,
            return_lane: None,
            blocked_by: None,
            block_reason: None,
            blocked_at: None,
            bounces: None,
        }
    }
}

/// What to block on.
#[derive(Debug, Clone, PartialEq, Eq)]
pub struct BlockRequest {
    /// Ticket ids to add to the existing set.
    pub blocked_by: Vec<String>,
    pub reason: Option<String>,
    /// Caller-supplied timestamp, written to `blocked_at`.
    pub now: String,
}

impl Default for BlockRequest {
    fn default() -> (r: Self)
        ensures
            r.blocked_by@.len() == 0 && r.reason.is_none() && r.now@.len() == 0,
    {
        BlockRequest { blocked_by: Vec::new(), reason: None, now: String::new() }
    }
}

/// A recorded block. Only this module builds one, and its return lane is
/// a plain string: a block without a return lane cannot be expressed.
#[derive(Debug, Clone, PartialEq, Eq)]
pub struct Block {
    return_lane: String,
    blocked_by: Vec<String>,
    reason: Option<String>,
    blocked_at: String,
}

/// A block as plain values: return lane, blockers, reason, when.
pub type BlockView = (Seq<char>, Seq<Seq<char>>, Option<Seq<char>>, Seq<char>);

impl View for Block {
    type V = BlockView;

    closed spec fn view(&self) -> BlockView {
        (self.return_lane@, strs(self.blocked_by@), opt_view(self.reason), self.blocked_at@)
    }
}

impl Block {
    /// The lane this ticket resumes in: always present.
    pub fn return_lane(&self) -> (r: &str)
        ensures
            r@ == self@.0,
    {
        self.return_lane.as_str()
    }

    pub fn blocked_by(&self) -> (r: &[String])
        ensures
            strs(r@) == self@.1,
    {
        self.blocked_by.as_slice()
    }

    pub fn reason(&self) -> (r: Option<&str>)
        ensures
            match r {
                Some(s) => self@.2 == Some(s@),
                None => self@.2.is_none(),
            },
    {
        match &self.reason {
            Some(s) => Some(s.as_str()),
            None => None,
        }
    }

    pub fn blocked_at(&self) -> (r: &str)
        ensures
            r@ == self@.3,
    {
        self.blocked_at.as_str()
    }
}

/// Why a block was refused. Every refusal leaves the ticket untouched.
#[derive(Debug, Clone, PartialEq, Eq)]
pub enum BlockRefusal {
    /// The definition declares no blocked lane.
    NoBlockedLane,
    /// The ticket's status names no lane, so there is no current lane to
    /// capture.
    UnknownLane { status: String },
    /// Extending a block whose return lane is missing or no longer a lane.
    MissingReturnLane,
    /// Neither a dependency nor a reason.
    Empty,
    /// A blocker that is a path, not a ticket id.
    PathBlocker(String),
    /// A blocker that is not a ticket id.
    MalformedBlocker(String),
    /// A ticket cannot block itself.
    SelfBlock(String),
    /// The edge would close a dependency cycle.
    Cycle(CyclePath),
}

/// The result of asking to block a ticket.
#[derive(Debug, Clone, PartialEq, Eq)]
pub enum BlockOutcome {
    Blocked {
        block: Block,
        /// Exactly the frontmatter keys to write, and no others.
        patch: TaskPatch,
        /// The log line the caller writes into the body.
        log: String,
    },
    Refused { reason: BlockRefusal },
}

// ---------------------------------------------------------------------
// Blocker ids
// ---------------------------------------------------------------------

/// One character of a ticket id: a digit, or a letter other than I, L,
/// O, U in either case.
pub open spec fn ulid_char(c: char) -> bool {
    is_ascii_digit(c) || ((is_ascii_upper(c) || is_ascii_lower(c)) && !(upper_c(c) == 'I' || upper_c(c)
        == 'L' || upper_c(c) == 'O' || upper_c(c) == 'U'))
}

/// Twenty-six id characters, after trimming.
pub open spec fn ulid_like(s: Seq<char>) -> bool {
    trim_ws(s).len() == 26 && forall|i: int| 0 <= i < 26 ==> #[trigger] ulid_char(trim_ws(s)[i])
}

pub open spec fn path_char(c: char) -> bool {
    c == '/' || c == '\\' || c == '.' || c == ':'
}

/// A separator, a dot, or a colon, after trimming.
pub open spec fn path_like(s: Seq<char>) -> bool {
    exists|i: int| 0 <= i < trim_ws(s).len() && #[trigger] path_char(trim_ws(s)[i])
}

fn is_ulid_like(s: &Vec<char>) -> (r: bool)
    ensures
        r == ulid_like(s@),
{
    let t = trim_vec(s);
    if t.len() != 26 {
        return false;
    }
    let mut i: usize = 0;
    while i < 26
        invariant
            t@ == trim_ws(s@),
            t@.len() == 26,
            i <= 26,
            forall|j: int| 0 <= j < i ==> #[trigger] ulid_char(t@[j]),
        decreases 26 - i,
    {
        let c = t[i];
        let u = c as u32;
        let digit = 48 <= u && u <= 57;
        let upper = 65 <= u && u <= 90;
        let lower = 97 <= u && u <= 122;
        let up: u32 = if lower {
            u - 32
        } else {
            u
        };
        let ok = digit || ((upper || lower) && !(up == 73 || up == 76 || up == 79 || up == 85));
        proof {
            if lower {
                assert(upper_c(c) == ((c as u32) - 32) as char);
            }
            assert(ok == ulid_char(c));
        }
        if !ok {
            return false;
        }
        i = i + 1;
    }
    true
}

fn looks_like_path(s: &Vec<char>) -> (r: bool)
    ensures
        r == path_like(s@),
{
    let t = trim_vec(s);
    let mut i: usize = 0;
    while i < t.len()
        invariant
            t@ == trim_ws(s@),
            i <= t.len(),
            forall|j: int| 0 <= j < i ==> !#[trigger] path_char(t@[j]),
        decreases t.len() - i,
    {
        let c = t[i];
        if c == '/' || c == '\\' || c == '.' || c == ':' {
            assert(path_char(t@[i as int]));
            return true;
        }
        i = i + 1;
    }
    false
}

// ---------------------------------------------------------------------
// Merging the requested blockers
// ---------------------------------------------------------------------

/// Why a requested blocker was refused.
#[derive(Debug, Clone, Copy, PartialEq, Eq, Structural)]
pub enum DepFault {
    Path,
    Malformed,
    SelfBlock,
    Cycle,
}

/// Some entry of `deps` names `d` (trimmed, case-insensitively).
pub open spec fn has_ci(deps: Seq<Seq<char>>, d: Seq<char>) -> bool {
    exists|i: int| 0 <= i < deps.len() && #[trigger] eq_ci(deps[i], d)
}

/// Fold the requested blockers `req` into `deps`, in order: blanks and
/// repeats skipped, a path, a malformed id, the ticket itself, or an edge
/// closing a cycle (in the graph plus the blockers gathered so far)
/// refused at the first offender.
pub open spec fn merge_deps(g: GraphView, id: Seq<char>, deps: Seq<Seq<char>>, req: Seq<Seq<char>>) -> Result<
    Seq<Seq<char>>,
    (DepFault, Seq<char>),
>
    decreases req.len(),
{
    if req.len() == 0 {
        Ok(deps)
    } else {
        let dep = trim_ws(req[0]);
        let rest = req.drop_first();
        if dep.len() == 0 {
            merge_deps(g, id, deps, rest)
        } else if path_like(dep) {
            Err((DepFault::Path, dep))
        } else if !ulid_like(dep) {
            Err((DepFault::Malformed, dep))
        } else if eq_ci(dep, id) {
            Err((DepFault::SelfBlock, dep))
        } else if has_ci(deps, dep) {
            merge_deps(g, id, deps, rest)
        } else if reachable(insert_view(g, norm(id), deps), norm(dep), norm(id)) {
            Err((DepFault::Cycle, dep))
        } else {
            merge_deps(g, id, deps.push(dep), rest)
        }
    }
}

fn has_ci_exec(deps: &Vec<String>, d: &str) -> (r: bool)
    ensures
        r == has_ci(strs(deps@), d@),
{
    let mut i: usize = 0;
    while i < deps.len()
        invariant
            i <= deps.len(),
            forall|j: int| 0 <= j < i ==> !#[trigger] eq_ci(strs(deps@)[j], d@),
        decreases deps.len() - i,
    {
        if eq_ci_str(deps[i].as_str(), d) {
            assert(eq_ci(strs(deps@)[i as int], d@));
            return true;
        }
        i = i + 1;
    }
    false
}

// ---------------------------------------------------------------------
// block
// ---------------------------------------------------------------------

/// The lane a block returns to, when the ticket sits in lane `k`: that
/// lane, or, when it already sits in the blocked lane, the return lane it
/// recorded, if that still names a lane.
pub open spec fn return_capture(t: Task, p: Pipeline, k: int) -> Option<Seq<char>> {
    if p.lanes@[k].blocked {
        match non_empty(fm_str(t.extra@, "return_lane"@)) {
            Some(rl) => if resolve_idx(p.lanes@, rl).is_some() {
                Some(rl)
            } else {
                None
            },
            None => None,
        }
    } else {
        Some(p.lanes@[k].id@)
    }
}

/// A non-blank requested reason, else the recorded one.
pub open spec fn merged_reason(req: Option<String>, t: Task) -> Option<Seq<char>> {
    match req {
        Some(r) => if trim_ws(r@).len() > 0 {
            Some(trim_ws(r@))
        } else {
            non_empty(fm_str(t.extra@, "block_reason"@))
        },
        None => non_empty(fm_str(t.extra@, "block_reason"@)),
    }
}

/// The keys a block writes: status, return lane, blockers, reason (empty
/// when absent), when; plus `bounces` on the retry-cap path.
pub open spec fn block_patch_view(blocked_lane: Seq<char>, b: BlockView, bounces: Option<u32>) -> PatchView {
    (
        Some(blocked_lane),
        Some(b.0),
        Some(b.1),
        Some(
            match b.2 {
                Some(r) => r,
                None => seq![],
            },
        ),
        Some(b.3),
        bounces,
    )
}

/// `blocked · returns to <lane> — blocked by <ids> — <reason>`, the last
/// two parts only when present.
pub open spec fn block_log_text(b: BlockView) -> Seq<char> {
    "blocked · returns to "@ + b.0 + (if b.1.len() > 0 {
        " — blocked by "@ + join(b.1, ", "@)
    } else {
        seq![]
    }) + match b.2 {
        Some(r) => " — "@ + r,
        None => seq![],
    }
}

fn block_patch(blocked_lane: &Lane, block: &Block, bounces: Option<u32>) -> (r: TaskPatch)
    ensures
        patch_view(r) == block_patch_view(blocked_lane.id@, block@, bounces),
{
    TaskPatch {
        lane: Some(blocked_lane.id.clone()),
        return_lane: Some(block.return_lane.clone()),
        blocked_by: Some(clone_strings(&block.blocked_by)),
        block_reason: Some(
            match &block.reason {
                Some(r) => r.clone(),
                None => String::new(),
            },
        ),
        blocked_at: Some(block.blocked_at.clone()),
        bounces,
    }
}

fn block_log(block: &Block) -> (r: String)
    ensures
        r@ == block_log_text(block@),
{
    let mut v: Vec<char> = Vec::new();
    push_str(&mut v, "blocked · returns to ");
    push_str(&mut v, block.return_lane.as_str());
    if block.blocked_by.len() > 0 {
        push_str(&mut v, " — blocked by ");
        let j = join_vec(&block.blocked_by, ", ");
        push_all(&mut v, &j);
    }
    match &block.reason {
        Some(r) => {
            push_str(&mut v, " — ");
            push_str(&mut v, r.as_str());
        },
        None => {},
    }
    assert(v@ =~= block_log_text(block@));
    string_of(v.as_slice())
}

proof fn lemma_lane_from_some(lanes: Seq<Lane>, s: Seq<char>, i: int, k: int)
    requires
        0 <= i <= k < lanes.len(),
        eq_ci(lanes[k].id@, s),
    ensures
        lane_from(lanes, s, i).is_some(),
    decreases k - i,
{
    if !eq_ci(lanes[i].id@, s) {
        lemma_lane_from_some(lanes, s, i + 1, k);
    }
}

/// Every lane's own id names a lane.
pub proof fn lemma_lane_id_resolves(lanes: Seq<Lane>, k: int)
    requires
        0 <= k < lanes.len(),
    ensures
        resolve_idx(lanes, lanes[k].id@).is_some(),
{
    if trim_ws(lanes[k].id@).len() > 0 {
        lemma_lane_from_some(lanes, lanes[k].id@, 0, k);
    }
}

/// Block a ticket. The return lane is captured from the ticket's current
/// lane (kept from the existing block when the ticket already sits in the
/// blocked lane); the requested blockers are merged in order, refusing a
/// path, a malformed id, the ticket itself, or a cycle before anything is
/// written.
pub fn block(ticket: &Task, pipeline: &Pipeline, graph: &BlockGraph, request: &BlockRequest) -> (r: BlockOutcome)
    ensures
        first_flagged(pipeline.lanes@, true, 0).is_none() ==> (r matches BlockOutcome::Refused {
            reason: BlockRefusal::NoBlockedLane,
        }),
        first_flagged(pipeline.lanes@, true, 0).is_some() && resolve_idx(
            pipeline.lanes@,
            ticket.status_raw@,
        ).is_none() ==> (r matches BlockOutcome::Refused { reason: BlockRefusal::UnknownLane { status } }
            && status@ == ticket.status_raw@),
        first_flagged(pipeline.lanes@, true, 0) matches Some(bk) ==> resolve_idx(
            pipeline.lanes@,
            ticket.status_raw@,
        ) matches Some(k) ==> match return_capture(*ticket, *pipeline, k) {
            None => r matches BlockOutcome::Refused { reason: BlockRefusal::MissingReturnLane },
            Some(rl) => match merge_deps(
                graph@,
                ticket.id@,
                fm_list(ticket.extra@, "blocked_by"@),
                strs(request.blocked_by@),
            ) {
                Err((DepFault::Path, d)) => r matches BlockOutcome::Refused {
                    reason: BlockRefusal::PathBlocker(s),
                } && s@ == d,
                Err((DepFault::Malformed, d)) => r matches BlockOutcome::Refused {
                    reason: BlockRefusal::MalformedBlocker(s),
                } && s@ == d,
                Err((DepFault::SelfBlock, d)) => r matches BlockOutcome::Refused {
                    reason: BlockRefusal::SelfBlock(s),
                } && s@ == d,
                Err((DepFault::Cycle, d)) => r matches BlockOutcome::Refused { reason: BlockRefusal::Cycle(_) },
                Ok(deps) => if deps.len() == 0 && merged_reason(request.reason, *ticket).is_none() {
                    r matches BlockOutcome::Refused { reason: BlockRefusal::Empty }
                } else {
                    r matches BlockOutcome::Blocked { block, patch, log } && block@ == (
                        rl,
                        deps,
                        merged_reason(request.reason, *ticket),
                        trim_ws(request.now@),
                    ) && patch_view(patch) == block_patch_view(
                        pipeline.lanes@[bk].id@,
                        block@,
                        None,
                    ) && log@ == block_log_text(block@)
                },
            },
        },
        // A block always returns somewhere real.
        r matches BlockOutcome::Blocked { block, .. } ==> resolve_idx(pipeline.lanes@, block@.0).is_some(),
{
    let blocked_lane = match pipeline.blocked_lane() {
        Some(l) => l,
        None => {
            return BlockOutcome::Refused { reason: BlockRefusal::NoBlockedLane };
        },
    };
    let ghost bk = first_flagged(pipeline.lanes@, true, 0).unwrap();
    let current = match resolve_lane(pipeline, ticket.status_raw.as_str()) {
        Some(l) => l,
        None => {
            return BlockOutcome::Refused {
                reason: BlockRefusal::UnknownLane { status: ticket.status_raw.clone() },
            };
        },
    };
    let ghost k = resolve_idx(pipeline.lanes@, ticket.status_raw@).unwrap();
    let existing = ticket_fields(ticket);
    let return_lane = if current.blocked {
        match &existing.return_lane {
            Some(rl) => {
                if resolve_lane(pipeline, rl.as_str()).is_some() {
                    rl.clone()
                } else {
                    return BlockOutcome::Refused { reason: BlockRefusal::MissingReturnLane };
                }
            },
            None => {
                return BlockOutcome::Refused { reason: BlockRefusal::MissingReturnLane };
            },
        }
    } else {
        current.id.clone()
    };
    assert(return_capture(*ticket, *pipeline, k) == Some(return_lane@));
    proof {
        if !current.blocked {
            lemma_lane_id_resolves(pipeline.lanes@, k);
        }
    }
    // Merge the requested blockers.
    let ghost g = graph@;
    let ghost req = strs(request.blocked_by@);
    let mut deps = clone_strings(&existing.blocked_by);
    let mut i: usize = 0;
    assert(req.skip(0) =~= req);
    while i < request.blocked_by.len()
        invariant
            i <= request.blocked_by.len(),
            g == graph@,
            req == strs(request.blocked_by@),
            first_flagged(pipeline.lanes@, true, 0) == Some(bk),
            resolve_idx(pipeline.lanes@, ticket.status_raw@) == Some(k),
            return_capture(*ticket, *pipeline, k) == Some(return_lane@),
            merge_deps(g, ticket.id@, fm_list(ticket.extra@, "blocked_by"@), req) == merge_deps(
                g,
                ticket.id@,
                strs(deps@),
                req.skip(i as int),
            ),
        decreases request.blocked_by.len() - i,
    {
        let ghost rest = req.skip(i as int);
        proof {
            assert(rest[0] == request.blocked_by@[i as int]@);
            assert(rest.drop_first() =~= req.skip(i + 1));
        }
        let raw = chars_of(request.blocked_by[i].as_str());
        let dep = trim_vec(&raw);
        let dep_s = string_of(dep.as_slice());
        if dep.len() == 0 {
            i = i + 1;
            continue;
        }
        if looks_like_path(&dep) {
            proof {
                crate::pipeline::graph::lemma_trim_idem(raw@);
            }
            return BlockOutcome::Refused { reason: BlockRefusal::PathBlocker(dep_s) };
        }
        proof {
            crate::pipeline::graph::lemma_trim_idem(raw@);
        }
        if !is_ulid_like(&dep) {
            return BlockOutcome::Refused { reason: BlockRefusal::MalformedBlocker(dep_s) };
        }
        if eq_ci_str(dep_s.as_str(), ticket.id.as_str()) {
            return BlockOutcome::Refused { reason: BlockRefusal::SelfBlock(dep_s) };
        }
        if has_ci_exec(&deps, dep_s.as_str()) {
            i = i + 1;
            continue;
        }
        let mut probe = graph.duplicate();
        probe.insert(ticket.id.as_str(), deps.as_slice());
        match check_cycle(&probe, ticket.id.as_str(), dep_s.as_str()) {
            Err(cycle) => {
                return BlockOutcome::Refused { reason: BlockRefusal::Cycle(cycle) };
            },
            Ok(()) => {},
        }
        let ghost before = strs(deps@);
        deps.push(dep_s);
        proof {
            assert(strs(deps@) =~= before.push(dep@));
        }
        i = i + 1;
    }
    assert(req.skip(request.blocked_by.len() as int).len() == 0);
    let reason: Option<String> = match &request.reason {
        Some(r) => {
            let t = trim_vec(&chars_of(r.as_str()));
            if t.len() > 0 {
                Some(string_of(t.as_slice()))
            } else {
                match &existing.block_reason {
                    Some(x) => Some(x.clone()),
                    None => None,
                }
            }
        },
        None => match &existing.block_reason {
            Some(x) => Some(x.clone()),
            None => None,
        },
    };
    assert(opt_view(reason) == merged_reason(request.reason, *ticket));
    if deps.len() == 0 && reason.is_none() {
        return BlockOutcome::Refused { reason: BlockRefusal::Empty };
    }
    let block = Block {
        return_lane,
        blocked_by: deps,
        reason,
        blocked_at: string_of(trim_vec(&chars_of(request.now.as_str())).as_slice()),
    };
    let patch = block_patch(blocked_lane, &block, None);
    let log = block_log(&block);
    BlockOutcome::Blocked { block, patch, log }
}

// ---------------------------------------------------------------------
// unblock
// ---------------------------------------------------------------------

/// What to clear. Dependencies and the reason are independent: clearing
/// one never unblocks a ticket the other still holds.
#[derive(Debug, Clone, Copy, PartialEq, Eq, Structural, Default)]
pub struct UnblockRequest {
    pub clear_deps: bool,
    pub clear_reason: bool,
}

#[derive(Debug, Clone, Copy, PartialEq, Eq, Structural)]
pub enum UnblockRefusal {
    NotBlocked,
    /// The return lane is missing or no longer a lane.
    MissingReturnLane,
    /// The request clears nothing.
    Empty,
}

#[derive(Debug, Clone, PartialEq, Eq)]
pub enum UnblockOutcome {
    /// Nothing holds the ticket any more; the caller re-enters it with an
    /// unblock entry, never a start.
    Released {
        return_lane: String,
        patch: TaskPatch,
        /// Unblocking a retry-capped ticket resets its bounces.
        reset_bounces: bool,
        log: String,
    },
    /// One hold cleared, the other still applies.
    StillBlocked {
        remaining_deps: Vec<String>,
        remaining_reason: Option<String>,
        patch: TaskPatch,
    },
    Refused { reason: UnblockRefusal },
}

/// The recorded return lane, when it still names a lane.
pub open spec fn live_return_lane(t: Task, p: Pipeline) -> Option<Seq<char>> {
    match non_empty(fm_str(t.extra@, "return_lane"@)) {
        Some(rl) => if resolve_idx(p.lanes@, rl).is_some() {
            Some(rl)
        } else {
            None
        },
        None => None,
    }
}

/// What unblocking answers: nothing to clear is refused; a ticket that
/// is not blocked is refused; with a hold still left, the remaining holds
/// and a patch writing them; otherwise release to the recorded return
/// lane (refused when it no longer names a lane), resetting bounces after
/// a retry-cap block.
pub open spec fn unblock_answer(t: Task, p: Pipeline, req: UnblockRequest, r: UnblockOutcome) -> bool {
    if !req.clear_deps && !req.clear_reason {
        r == UnblockOutcome::Refused { reason: UnblockRefusal::Empty }
    } else if !crate::pipeline::admission::is_blocked(t, p) {
        r == UnblockOutcome::Refused { reason: UnblockRefusal::NotBlocked }
    } else {
        let deps = if req.clear_deps {
            Seq::<Seq<char>>::empty()
        } else {
            fm_list(t.extra@, "blocked_by"@)
        };
        let reason = if req.clear_reason {
            None
        } else {
            non_empty(fm_str(t.extra@, "block_reason"@))
        };
        if deps.len() > 0 || reason.is_some() {
            r matches UnblockOutcome::StillBlocked { remaining_deps, remaining_reason, patch } && strs(
                remaining_deps@,
            ) == deps && opt_view(remaining_reason) == reason && patch_view(patch) == (
                None::<Seq<char>>,
                None::<Seq<char>>,
                Some(deps),
                Some(
                    match reason {
                        Some(x) => x,
                        None => Seq::<char>::empty(),
                    },
                ),
                None::<Seq<char>>,
                None::<u32>,
            )
        } else {
            match live_return_lane(t, p) {
                None => r == UnblockOutcome::Refused { reason: UnblockRefusal::MissingReturnLane },
                Some(rl) => {
                    let reset = match non_empty(fm_str(t.extra@, "block_reason"@)) {
                        Some(x) => crate::pipeline::ticket::retry_cap_reason(x),
                        None => false,
                    };
                    r matches UnblockOutcome::Released { return_lane, patch, reset_bounces, log }
                        && return_lane@ == rl && reset_bounces == reset && patch_view(patch) == (
                        Some(rl),
                        None::<Seq<char>>,
                        Some(Seq::<Seq<char>>::empty()),
                        Some(Seq::<char>::empty()),
                        Some(Seq::<char>::empty()),
                        if reset {
                            Some(0u32)
                        } else {
                            None::<u32>
                        },
                    ) && log@ == "unblocked · returning to "@ + rl
                },
            }
        }
    }
}

/// Clear a block's dependencies and/or its reason.
pub fn unblock(ticket: &Task, pipeline: &Pipeline, request: &UnblockRequest) -> (r: UnblockOutcome)
    ensures
        unblock_answer(*ticket, *pipeline, *request, r),
{
    if !request.clear_deps && !request.clear_reason {
        return UnblockOutcome::Refused { reason: UnblockRefusal::Empty };
    }
    let fields = ticket_fields(ticket);
    let in_blocked_lane = match resolve_lane(pipeline, ticket.status_raw.as_str()) {
        Some(l) => l.blocked,
        None => false,
    };
    if !in_blocked_lane && fields.blocked_by.len() == 0 && fields.block_reason.is_none() {
        return UnblockOutcome::Refused { reason: UnblockRefusal::NotBlocked };
    }
    let deps: Vec<String> = if request.clear_deps {
        let v: Vec<String> = Vec::new();
        assert(strs(v@) =~= Seq::<Seq<char>>::empty());
        v
    } else {
        clone_strings(&fields.blocked_by)
    };
    let reason: Option<String> = if request.clear_reason {
        None
    } else {
        match &fields.block_reason {
            Some(x) => Some(x.clone()),
            None => None,
        }
    };
    if deps.len() > 0 || reason.is_some() {
        let patch = TaskPatch {
            lane: None,
            return_lane: None,
            blocked_by: Some(clone_strings(&deps)),
            block_reason: Some(
                match &reason {
                    Some(x) => x.clone(),
                    None => String::new(),
                },
            ),
            blocked_at: None,
            bounces: None,
        };
        return UnblockOutcome::StillBlocked { remaining_deps: deps, remaining_reason: reason, patch };
    }
    let return_lane = match &fields.return_lane {
        Some(rl) => {
            if resolve_lane(pipeline, rl.as_str()).is_some() {
                rl.clone()
            } else {
                return UnblockOutcome::Refused { reason: UnblockRefusal::MissingReturnLane };
            }
        },
        None => {
            return UnblockOutcome::Refused { reason: UnblockRefusal::MissingReturnLane };
        },
    };
    let reset_bounces = match &fields.block_reason {
        Some(x) => crate::pipeline::ticket::is_retry_cap_reason(x.as_str()),
        None => false,
    };
    let empty: Vec<String> = Vec::new();
    assert(strs(empty@) =~= Seq::<Seq<char>>::empty());
    let mut log: Vec<char> = Vec::new();
    push_str(&mut log, "unblocked · returning to ");
    push_str(&mut log, return_lane.as_str());
    UnblockOutcome::Released {
        patch: TaskPatch {
            lane: Some(return_lane.clone()),
            return_lane: None,
            blocked_by: Some(empty),
            block_reason: Some(String::new()),
            blocked_at: Some(String::new()),
            bounces: if reset_bounces {
                Some(0)
            } else {
                None
            },
        },
        return_lane,
        reset_bounces,
        log: string_of(log.as_slice()),
    }
}

// ---------------------------------------------------------------------
// advance
// ---------------------------------------------------------------------

#[derive(Debug, Clone, PartialEq, Eq)]
pub enum TransitionRefusal {
    /// The ticket's status names no lane.
    UnknownLane { status: String },
    /// The lane declares no edge for this outcome.
    NoEdge { lane: String, outcome: AdvanceOutcome },
    /// The edge names a lane the definition does not declare.
    UnknownTarget { lane: String, target: String },
    /// A bounce broke the cap but there is no blocked lane to escalate to.
    NoBlockedLane,
}

/// The result of advancing a ticket. A retry-cap breach is a block, not a
/// separate halted state.
#[derive(Debug, Clone, PartialEq, Eq)]
pub enum Transition {
    Moved {
        from: String,
        to: String,
        /// A move to an earlier lane in definition order.
        backward: bool,
        /// The counter after this move.
        bounces: u32,
        patch: TaskPatch,
        log: String,
    },
    /// The bounce would have exceeded the cap, so the ticket is blocked
    /// instead of entering the target lane again.
    Blocked {
        from: String,
        /// The lane it was bouncing to, and so its return lane.
        would_have_entered: String,
        block: Block,
        patch: TaskPatch,
        log: String,
    },
    Refused { reason: TransitionRefusal },
}

/// The bounce count the ticket records.
pub open spec fn stored_bounces(t: Task) -> u32 {
    match crate::text::parse_u32_spec(trim_ws(fm_str(t.extra@, "bounces"@))) {
        Some(n) => n,
        None => 0,
    }
}

pub open spec fn pos_or_zero(o: Option<int>) -> int {
    match o {
        Some(i) => i,
        None => 0,
    }
}

/// `exceeded retry cap (<n> bounces)`.
pub open spec fn cap_reason(n: u32) -> Seq<char> {
    crate::pipeline::ticket::RETRY_CAP_REASON@ + " ("@ + crate::text::dec(n as nat) + " bounces)"@
}

/// Where an outcome leads: resolve the lane's edge, move forward freely,
/// count a backward move as a bounce, and block instead once a bounce
/// would pass the cap.
pub open spec fn advance_answer(
    t: Task,
    p: Pipeline,
    outcome: AdvanceOutcome,
    now: Seq<char>,
    r: Transition,
) -> bool {
    let lanes = p.lanes@;
    match resolve_idx(lanes, t.status_raw@) {
        None => r matches Transition::Refused { reason: TransitionRefusal::UnknownLane { status } }
            && status@ == t.status_raw@,
        Some(f) => {
            let from = lanes[f];
            let target = match outcome {
                AdvanceOutcome::Pass => opt_view(from.on_pass),
                AdvanceOutcome::Fail => opt_view(from.on_fail),
            };
            match target {
                None => r matches Transition::Refused {
                    reason: TransitionRefusal::NoEdge { lane, outcome: o },
                } && lane@ == from.id@ && o == outcome,
                Some(tid) => match resolve_idx(lanes, tid) {
                    None => r matches Transition::Refused {
                        reason: TransitionRefusal::UnknownTarget { lane, target },
                    } && lane@ == from.id@ && target@ == tid,
                    Some(ti) => {
                        let to = lanes[ti];
                        let backward = pos_or_zero(lane_from(lanes, to.id@, 0)) < pos_or_zero(
                            lane_from(lanes, from.id@, 0),
                        );
                        let b = stored_bounces(t);
                        if !backward {
                            r matches Transition::Moved { from: a, to: z, backward: bw, bounces, patch, log }
                                && a@ == from.id@ && z@ == to.id@ && !bw && bounces == b
                                && patch_view(patch) == (
                                Some(to.id@),
                                None::<Seq<char>>,
                                None::<Seq<Seq<char>>>,
                                None::<Seq<char>>,
                                None::<Seq<char>>,
                                None::<u32>,
                            ) && log@ == from.id@ + " → "@ + to.id@ + " ("@ + outcome.word() + ")"@
                        } else {
                            let next: u32 = if b == u32::MAX {
                                b
                            } else {
                                (b + 1) as u32
                            };
                            if next > p.bounce_cap {
                                match first_flagged(lanes, true, 0) {
                                    None => r == Transition::Refused {
                                        reason: TransitionRefusal::NoBlockedLane,
                                    },
                                    Some(bk) => r matches Transition::Blocked {
                                        from: a,
                                        would_have_entered: w,
                                        block,
                                        patch,
                                        log,
                                    } && a@ == from.id@ && w@ == to.id@ && block@ == (
                                        to.id@,
                                        fm_list(t.extra@, "blocked_by"@),
                                        Some(cap_reason(next)),
                                        trim_ws(now),
                                    ) && patch_view(patch) == block_patch_view(
                                        lanes[bk].id@,
                                        block@,
                                        Some(next),
                                    ) && log@ == from.id@ + " → "@ + to.id@ + " refused: "@
                                        + cap_reason(next) + " — blocked, returns to "@ + to.id@,
                                }
                            } else {
                                r matches Transition::Moved {
                                    from: a,
                                    to: z,
                                    backward: bw,
                                    bounces,
                                    patch,
                                    log,
                                } && a@ == from.id@ && z@ == to.id@ && bw && bounces == next
                                    && patch_view(patch) == (
                                    Some(to.id@),
                                    None::<Seq<char>>,
                                    None::<Seq<Seq<char>>>,
                                    None::<Seq<char>>,
                                    None::<Seq<char>>,
                                    Some(next),
                                ) && log@ == from.id@ + " → "@ + to.id@ + " (fail, bounce "@
                                    + crate::text::dec(next as nat) + "/"@ + crate::text::dec(
                                    p.bounce_cap as nat,
                                ) + ")"@
                            }
                        }
                    },
                },
            }
        },
    }
}

fn position_or_zero(pipeline: &Pipeline, id: &str) -> (r: usize)
    ensures
        r as int == pos_or_zero(lane_from(pipeline.lanes@, id@, 0)),
{
    match crate::pipeline::lanes::lane_index(pipeline, id) {
        Some(i) => i,
        None => 0,
    }
}

/// Resolve the lane's edge for `outcome`, count backward moves as
/// bounces, and turn a cap breach into a block. `now` is read only on the
/// cap-breach path, where it becomes `blocked_at`.
pub fn advance(ticket: &Task, pipeline: &Pipeline, outcome: AdvanceOutcome, now: &str) -> (r: Transition)
    ensures
        advance_answer(*ticket, *pipeline, outcome, now@, r),
        // A bounce never takes the counter past the cap.
        (r matches Transition::Moved { backward, bounces, .. } ==> (backward ==> bounces
            <= pipeline.bounce_cap)),
{
    let from = match resolve_lane(pipeline, ticket.status_raw.as_str()) {
        Some(l) => l,
        None => {
            return Transition::Refused {
                reason: TransitionRefusal::UnknownLane { status: ticket.status_raw.clone() },
            };
        },
    };
    let target = match outcome {
        AdvanceOutcome::Pass => &from.on_pass,
        AdvanceOutcome::Fail => &from.on_fail,
    };
    let target_id = match target {
        Some(t) => t,
        None => {
            return Transition::Refused {
                reason: TransitionRefusal::NoEdge { lane: from.id.clone(), outcome },
            };
        },
    };
    let to = match resolve_lane(pipeline, target_id.as_str()) {
        Some(l) => l,
        None => {
            return Transition::Refused {
                reason: TransitionRefusal::UnknownTarget {
                    lane: from.id.clone(),
                    target: target_id.clone(),
                },
            };
        },
    };
    let from_idx = position_or_zero(pipeline, from.id.as_str());
    let to_idx = position_or_zero(pipeline, to.id.as_str());
    let backward = to_idx < from_idx;
    let fields = ticket_fields(ticket);
    if !backward {
        let mut log: Vec<char> = Vec::new();
        push_str(&mut log, from.id.as_str());
        push_str(&mut log, " → ");
        push_str(&mut log, to.id.as_str());
        push_str(&mut log, " (");
        push_str(&mut log, outcome.as_str());
        push_str(&mut log, ")");
        return Transition::Moved {
            log: string_of(log.as_slice()),
            from: from.id.clone(),
            to: to.id.clone(),
            backward: false,
            bounces: fields.bounces,
            patch: TaskPatch {
                lane: Some(to.id.clone()),
                return_lane: None,
                blocked_by: None,
                block_reason: None,
                blocked_at: None,
                bounces: None,
            },
        };
    }
    let next: u32 = if fields.bounces == u32::MAX {
        fields.bounces
    } else {
        fields.bounces + 1
    };
    if next > pipeline.bounce_cap {
        let blocked_lane = match pipeline.blocked_lane() {
            Some(l) => l,
            None => {
                return Transition::Refused { reason: TransitionRefusal::NoBlockedLane };
            },
        };
        let mut why: Vec<char> = Vec::new();
        push_str(&mut why, crate::pipeline::ticket::RETRY_CAP_REASON);
        push_str(&mut why, " (");
        let nd = crate::text::dec_u64(next as u64);
        push_all(&mut why, &nd);
        push_str(&mut why, " bounces)");
        assert(why@ =~= cap_reason(next));
        let block = Block {
            return_lane: to.id.clone(),
            blocked_by: clone_strings(&fields.blocked_by),
            reason: Some(string_of(why.as_slice())),
            blocked_at: string_of(trim_vec(&chars_of(now)).as_slice()),
        };
        let patch = block_patch(blocked_lane, &block, Some(next));
        let mut log: Vec<char> = Vec::new();
        push_str(&mut log, from.id.as_str());
        push_str(&mut log, " → ");
        push_str(&mut log, to.id.as_str());
        push_str(&mut log, " refused: ");
        push_all(&mut log, &why);
        push_str(&mut log, " — blocked, returns to ");
        push_str(&mut log, to.id.as_str());
        return Transition::Blocked {
            from: from.id.clone(),
            would_have_entered: to.id.clone(),
            block,
            patch,
            log: string_of(log.as_slice()),
        };
    }
    let mut log: Vec<char> = Vec::new();
    push_str(&mut log, from.id.as_str());
    push_str(&mut log, " → ");
    push_str(&mut log, to.id.as_str());
    push_str(&mut log, " (fail, bounce ");
    let nd = crate::text::dec_u64(next as u64);
    push_all(&mut log, &nd);
    push_str(&mut log, "/");
    let cd = crate::text::dec_u64(pipeline.bounce_cap as u64);
    push_all(&mut log, &cd);
    push_str(&mut log, ")");
    Transition::Moved {
        log: string_of(log.as_slice()),
        from: from.id.clone(),
        to: to.id.clone(),
        backward: true,
        bounces: next,
        patch: TaskPatch {
            lane: Some(to.id.clone()),
            return_lane: None,
            blocked_by: None,
            block_reason: None,
            blocked_at: None,
            bounces: Some(next),
        },
    }
}

/// The retry-cap block's reason is the one `is_retry_cap_reason`
/// recognises, so unblocking such a ticket resets its bounces.
pub proof fn law_retry_cap_blocks_are_recognised(n: u32)
    ensures
        crate::pipeline::ticket::retry_cap_reason(cap_reason(n)),
{
    let s = cap_reason(n);
    let p = crate::pipeline::ticket::RETRY_CAP_REASON@;
    reveal_strlit("exceeded retry cap");
    reveal_strlit(" (");
    reveal_strlit(" bounces)");
    assert(p.len() == 18);
    assert(s[0] == 'e');
    assert(s.last() == ')');
    crate::pipeline::graph::lemma_trim_end_fixed(s);
    crate::pipeline::graph::lemma_trim_start_fixed(s);
    assert(trim_ws(s) == s);
    let w = crate::text::lower_s(s);
    assert forall|i: int| 0 <= i < 18 implies w[i] == p[i] by {
        assert(s[i] == p[i]);
        assert(!crate::text::is_ascii_upper(p[i]));
    }
    assert(w.subrange(0, 18) =~= p);
}

} // verus!
