//! The daily digest's groups and their one markdown rendering, shared by
//! every surface that shows it.
use vstd::prelude::*;
use crate::pipeline::graph::{join, join_vec, strs};
use crate::pipeline::runs::RunRecord;
use crate::text::{chars_of, dec, dec_u64, push_all, push_str, string_of, views};

verus! {

/// A blocked ticket, shown with the root blocker(s) of its chain.
#[derive(Debug, Clone, PartialEq, Eq)]
pub struct BlockedDigestEntry {
    pub ticket_id: String,
    pub title: String,
    pub blocked_at: Option<String>,
    pub root_blockers: Vec<String>,
    pub block_reason: Option<String>,
    pub run_count: usize,
}

#[derive(Debug, Clone, PartialEq, Eq)]
pub struct UnblockedDigestEntry {
    pub ticket_id: String,
    pub title: String,
    pub return_lane: String,
}

#[derive(Debug, Clone, PartialEq, Eq)]
pub struct AwaitingReviewEntry {
    pub ticket_id: String,
    pub title: String,
    pub updated: String,
    pub run_count: usize,
}

#[derive(Debug, Clone, PartialEq, Eq)]
pub struct MovedEntry {
    pub ticket_id: String,
    pub title: String,
    pub lane: String,
    pub run_count: usize,
}

#[derive(Debug, Clone, PartialEq, Eq)]
pub struct IdeaEntry {
    pub ticket_id: String,
    pub title: String,
    pub spawned_by: Option<String>,
}

/// The whole daily update, its groups in display order.
#[derive(Debug, Clone, PartialEq, Eq)]
pub struct Digest {
    pub awaiting_review: Vec<AwaitingReviewEntry>,
    pub newly_unblocked: Vec<UnblockedDigestEntry>,
    pub blocked: Vec<BlockedDigestEntry>,
    pub moved_today: Vec<MovedEntry>,
    pub new_ideas: Vec<IdeaEntry>,
    pub stale_runs: Vec<RunRecord>,
}

impl Default for Digest {
    fn default() -> (d: Self)
        ensures
            d.awaiting_review@.len() == 0,
            d.newly_unblocked@.len() == 0,
            d.blocked@.len() == 0,
            d.moved_today@.len() == 0,
            d.new_ideas@.len() == 0,
            d.stale_runs@.len() == 0,
    {
        Digest {
            awaiting_review: Vec::new(),
            newly_unblocked: Vec::new(),
            blocked: Vec::new(),
            moved_today: Vec::new(),
            new_ideas: Vec::new(),
            stale_runs: Vec::new(),
        }
    }
}

// ---------------------------------------------------------------------
// The text, as specs
// ---------------------------------------------------------------------

/// `parts` run together.
pub open spec fn concat(parts: Seq<Seq<char>>) -> Seq<char>
    decreases parts.len(),
{
    if parts.len() == 0 {
        seq![]
    } else {
        concat(parts.drop_last()) + parts.last()
    }
}

/// `"- **{title}** ({id})"`, the head every entry line starts with.
pub open spec fn entry_head(title: Seq<char>, id: Seq<char>) -> Seq<char> {
    "- **"@ + title + "** ("@ + id + ")"@
}

pub open spec fn runs_note(n: usize) -> Seq<char> {
    ", "@ + dec(n as nat) + " run(s)\n"@
}

pub open spec fn awaiting_line(e: AwaitingReviewEntry) -> Seq<char> {
    entry_head(e.title@, e.ticket_id@) + " — updated "@ + e.updated@ + runs_note(e.run_count)
}

pub open spec fn unblocked_line(e: UnblockedDigestEntry) -> Seq<char> {
    entry_head(e.title@, e.ticket_id@) + " — returns to `"@ + e.return_lane@ + "`\n"@
}

pub open spec fn blocked_line(e: BlockedDigestEntry) -> Seq<char> {
    let since = match e.blocked_at {
        Some(s) => s@,
        None => "unknown"@,
    };
    let root = if e.root_blockers@.len() == 0 {
        seq![]
    } else {
        ", root blocker(s): "@ + join(strs(e.root_blockers@), ", "@)
    };
    let reason = match e.block_reason {
        Some(r) => " — "@ + r@,
        None => seq![],
    };
    entry_head(e.title@, e.ticket_id@) + " — blocked since "@ + since + root + reason + runs_note(
        e.run_count,
    )
}

pub open spec fn moved_line(e: MovedEntry) -> Seq<char> {
    entry_head(e.title@, e.ticket_id@) + " → `"@ + e.lane@ + "`\n"@
}

pub open spec fn idea_line(e: IdeaEntry) -> Seq<char> {
    let cite = match e.spawned_by {
        Some(s) => " — from "@ + s@,
        None => seq![],
    };
    entry_head(e.title@, e.ticket_id@) + cite + "\n"@
}

pub open spec fn stale_line(r: RunRecord) -> Seq<char> {
    "- run `"@ + r.id@ + "` on ticket "@ + r.ticket@ + " (lane `"@ + r.lane@ + "`)\n"@
}

/// A group: omitted when it has no lines, else its heading, its lines,
/// and a blank line.
pub open spec fn section(heading: Seq<char>, lines: Seq<Seq<char>>) -> Seq<char> {
    if lines.len() == 0 {
        seq![]
    } else {
        "## "@ + heading + "\n\n"@ + concat(lines) + "\n"@
    }
}

pub open spec fn digest_is_empty(d: Digest) -> bool {
    &&& d.awaiting_review@.len() == 0
    &&& d.newly_unblocked@.len() == 0
    &&& d.blocked@.len() == 0
    &&& d.moved_today@.len() == 0
    &&& d.new_ideas@.len() == 0
    &&& d.stale_runs@.len() == 0
}

/// The digest's markdown.
pub open spec fn digest_markdown(d: Digest, today: Seq<char>) -> Seq<char> {
    "# Pipeline digest — "@ + today + "\n\n"@
        + section("Awaiting your review"@, d.awaiting_review@.map_values(|e| awaiting_line(e)))
        + section("Unblocked overnight"@, d.newly_unblocked@.map_values(|e| unblocked_line(e)))
        + section("Blocked"@, d.blocked@.map_values(|e| blocked_line(e)))
        + section("Moved today"@, d.moved_today@.map_values(|e| moved_line(e)))
        + section("New ideas"@, d.new_ideas@.map_values(|e| idea_line(e)))
        + section("Stale runs"@, d.stale_runs@.map_values(|r| stale_line(r)))
        + if digest_is_empty(d) {
        "Nothing to report.\n"@
    } else {
        seq![]
    }
}

// ---------------------------------------------------------------------
// Rendering
// ---------------------------------------------------------------------

fn push_head(out: &mut Vec<char>, title: &str, id: &str)
    ensures
        final(out)@ == old(out)@ + entry_head(title@, id@),
{
    push_str(out, "- **");
    push_str(out, title);
    push_str(out, "** (");
    push_str(out, id);
    push_str(out, ")");
}

fn push_runs(out: &mut Vec<char>, n: usize)
    ensures
        final(out)@ == old(out)@ + runs_note(n),
{
    push_str(out, ", ");
    let d = dec_u64(n as u64);
    push_all(out, &d);
    push_str(out, " run(s)\n");
}

/// Append `heading` and `lines` as a group (nothing when `lines` is
/// empty).
fn push_section(out: &mut Vec<char>, heading: &str, lines: &Vec<Vec<char>>)
    ensures
        final(out)@ == old(out)@ + section(heading@, views(lines@)),
{
    if lines.len() == 0 {
        assert(old(out)@ + section(heading@, views(lines@)) =~= old(out)@);
        return;
    }
    let ghost start = out@;
    push_str(out, "## ");
    push_str(out, heading);
    push_str(out, "\n\n");
    let ghost mid = out@;
    let mut i: usize = 0;
    while i < lines.len()
        invariant
            i <= lines.len(),
            out@ == mid + concat(views(lines@).take(i as int)),
        decreases lines.len() - i,
    {
        push_all(out, &lines[i]);
        proof {
            assert(views(lines@).take(i + 1).drop_last() =~= views(lines@).take(i as int));
        }
        i = i + 1;
    }
    assert(views(lines@).take(lines.len() as int) =~= views(lines@));
    push_str(out, "\n");
}

/// Render the digest to markdown. Empty groups are omitted; an entirely
/// empty digest renders a single "nothing to report" line.
pub fn render_digest_markdown(digest: &Digest, today: &str) -> (r: String)
    ensures
        r@ == digest_markdown(*digest, today@),
{
    let mut out: Vec<char> = Vec::new();
    push_str(&mut out, "# Pipeline digest — ");
    push_str(&mut out, today);
    push_str(&mut out, "\n\n");

    let mut lines: Vec<Vec<char>> = Vec::new();
    let mut i: usize = 0;
    while i < digest.awaiting_review.len()
        invariant
            i <= digest.awaiting_review.len(),
            views(lines@) == digest.awaiting_review@.take(i as int).map_values(|e| awaiting_line(e)),
        decreases digest.awaiting_review.len() - i,
    {
        let e = &digest.awaiting_review[i];
        let mut l: Vec<char> = Vec::new();
        push_head(&mut l, e.title.as_str(), e.ticket_id.as_str());
        push_str(&mut l, " — updated ");
        push_str(&mut l, e.updated.as_str());
        push_runs(&mut l, e.run_count);
        let ghost before = lines@;
        lines.push(l);
        proof {
            assert(views(lines@) =~= views(before).push(l@));
            assert(digest.awaiting_review@.take(i + 1).map_values(|e| awaiting_line(e)) =~= digest.awaiting_review@.take(i as int).map_values(|e| awaiting_line(e)).push(awaiting_line(digest.awaiting_review@[i as int])));
        }
        i = i + 1;
    }
    assert(digest.awaiting_review@.take(i as int) =~= digest.awaiting_review@);
    push_section(&mut out, "Awaiting your review", &lines);

    let mut lines: Vec<Vec<char>> = Vec::new();
    let mut i: usize = 0;
    while i < digest.newly_unblocked.len()
        invariant
            i <= digest.newly_unblocked.len(),
            views(lines@) == digest.newly_unblocked@.take(i as int).map_values(|e| unblocked_line(e)),
        decreases digest.newly_unblocked.len() - i,
    {
        let e = &digest.newly_unblocked[i];
        let mut l: Vec<char> = Vec::new();
        push_head(&mut l, e.title.as_str(), e.ticket_id.as_str());
        push_str(&mut l, " — returns to `");
        push_str(&mut l, e.return_lane.as_str());
        push_str(&mut l, "`\n");
        let ghost before = lines@;
        lines.push(l);
        proof {
            assert(views(lines@) =~= views(before).push(l@));
            assert(digest.newly_unblocked@.take(i + 1).map_values(|e| unblocked_line(e)) =~= digest.newly_unblocked@.take(i as int).map_values(|e| unblocked_line(e)).push(unblocked_line(digest.newly_unblocked@[i as int])));
        }
        i = i + 1;
    }
    assert(digest.newly_unblocked@.take(i as int) =~= digest.newly_unblocked@);
    push_section(&mut out, "Unblocked overnight", &lines);

    let mut lines: Vec<Vec<char>> = Vec::new();
    let mut i: usize = 0;
    while i < digest.blocked.len()
        invariant
            i <= digest.blocked.len(),
            views(lines@) == digest.blocked@.take(i as int).map_values(|e| blocked_line(e)),
        decreases digest.blocked.len() - i,
    {
        let e = &digest.blocked[i];
        let mut l: Vec<char> = Vec::new();
        push_head(&mut l, e.title.as_str(), e.ticket_id.as_str());
        push_str(&mut l, " — blocked since ");
        match &e.blocked_at {
            Some(s) => push_str(&mut l, s.as_str()),
            None => push_str(&mut l, "unknown"),
        }
        if e.root_blockers.len() > 0 {
            push_str(&mut l, ", root blocker(s): ");
            let j = join_vec(&e.root_blockers, ", ");
            push_all(&mut l, &j);
        }
        match &e.block_reason {
            Some(r) => {
                push_str(&mut l, " — ");
                push_str(&mut l, r.as_str());
            },
            None => {},
        }
        push_runs(&mut l, e.run_count);
        proof {
            assert(l@ =~= blocked_line(*e));
        }
        let ghost before = lines@;
        lines.push(l);
        proof {
            assert(views(lines@) =~= views(before).push(l@));
            assert(digest.blocked@.take(i + 1).map_values(|e| blocked_line(e)) =~= digest.blocked@.take(i as int).map_values(|e| blocked_line(e)).push(blocked_line(digest.blocked@[i as int])));
        }
        i = i + 1;
    }
    assert(digest.blocked@.take(i as int) =~= digest.blocked@);
    push_section(&mut out, "Blocked", &lines);

    let mut lines: Vec<Vec<char>> = Vec::new();
    let mut i: usize = 0;
    while i < digest.moved_today.len()
        invariant
            i <= digest.moved_today.len(),
            views(lines@) == digest.moved_today@.take(i as int).map_values(|e| moved_line(e)),
        decreases digest.moved_today.len() - i,
    {
        let e = &digest.moved_today[i];
        let mut l: Vec<char> = Vec::new();
        push_head(&mut l, e.title.as_str(), e.ticket_id.as_str());
        push_str(&mut l, " → `");
        push_str(&mut l, e.lane.as_str());
        push_str(&mut l, "`\n");
        let ghost before = lines@;
        lines.push(l);
        proof {
            assert(views(lines@) =~= views(before).push(l@));
            assert(digest.moved_today@.take(i + 1).map_values(|e| moved_line(e)) =~= digest.moved_today@.take(i as int).map_values(|e| moved_line(e)).push(moved_line(digest.moved_today@[i as int])));
        }
        i = i + 1;
    }
    assert(digest.moved_today@.take(i as int) =~= digest.moved_today@);
    push_section(&mut out, "Moved today", &lines);

    let mut lines: Vec<Vec<char>> = Vec::new();
    let mut i: usize = 0;
    while i < digest.new_ideas.len()
        invariant
            i <= digest.new_ideas.len(),
            views(lines@) == digest.new_ideas@.take(i as int).map_values(|e| idea_line(e)),
        decreases digest.new_ideas.len() - i,
    {
        let e = &digest.new_ideas[i];
        let mut l: Vec<char> = Vec::new();
        push_head(&mut l, e.title.as_str(), e.ticket_id.as_str());
        match &e.spawned_by {
            Some(s) => {
                push_str(&mut l, " — from ");
                push_str(&mut l, s.as_str());
            },
            None => {},
        }
        push_str(&mut l, "\n");
        proof {
            assert(l@ =~= idea_line(*e));
        }
        let ghost before = lines@;
        lines.push(l);
        proof {
            assert(views(lines@) =~= views(before).push(l@));
            assert(digest.new_ideas@.take(i + 1).map_values(|e| idea_line(e)) =~= digest.new_ideas@.take(i as int).map_values(|e| idea_line(e)).push(idea_line(digest.new_ideas@[i as int])));
        }
        i = i + 1;
    }
    assert(digest.new_ideas@.take(i as int) =~= digest.new_ideas@);
    push_section(&mut out, "New ideas", &lines);

    let mut lines: Vec<Vec<char>> = Vec::new();
    let mut i: usize = 0;
    while i < digest.stale_runs.len()
        invariant
            i <= digest.stale_runs.len(),
            views(lines@) == digest.stale_runs@.take(i as int).map_values(|r| stale_line(r)),
        decreases digest.stale_runs.len() - i,
    {
        let r = &digest.stale_runs[i];
        let mut l: Vec<char> = Vec::new();
        push_str(&mut l, "- run `");
        push_str(&mut l, r.id.as_str());
        push_str(&mut l, "` on ticket ");
        push_str(&mut l, r.ticket.as_str());
        push_str(&mut l, " (lane `");
        push_str(&mut l, r.lane.as_str());
        push_str(&mut l, "`)\n");
        let ghost before = lines@;
        lines.push(l);
        proof {
            assert(views(lines@) =~= views(before).push(l@));
            assert(digest.stale_runs@.take(i + 1).map_values(|r| stale_line(r)) =~= digest.stale_runs@.take(i as int).map_values(|r| stale_line(r)).push(stale_line(digest.stale_runs@[i as int])));
        }
        i = i + 1;
    }
    assert(digest.stale_runs@.take(i as int) =~= digest.stale_runs@);
    push_section(&mut out, "Stale runs", &lines);

    if digest.awaiting_review.len() == 0 && digest.newly_unblocked.len() == 0
        && digest.blocked.len() == 0 && digest.moved_today.len() == 0
        && digest.new_ideas.len() == 0 && digest.stale_runs.len() == 0 {
        push_str(&mut out, "Nothing to report.\n");
    }
    proof {
        assert(out@ =~= digest_markdown(*digest, today@));
    }
    string_of(out.as_slice())
}

} // verus!
