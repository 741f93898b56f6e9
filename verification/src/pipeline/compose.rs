//! Composing the daily digest from the board, the pipelines and the run
//! ledger: awaiting review (oldest first), newly unblocked, blocked
//! (oldest first, root blockers shown), moved today, new ideas, stale runs.
use vstd::prelude::*;
use crate::pipeline::artifacts::{
    lemma_lex_irreflexive, lemma_lex_total, lemma_lex_transitive, lex_lt, vec_lt,
};
use crate::pipeline::digest::{
    AwaitingReviewEntry, BlockedDigestEntry, Digest, IdeaEntry, MovedEntry, UnblockedDigestEntry,
};
use crate::pipeline::graph::{root_blockers, root_leaves, strs, BlockGraph};
use crate::pipeline::lanes::{find_pipeline, pipeline_from, resolve_idx, resolve_lane, Pipeline};
use crate::pipeline::queue::{derive_queue, in_bucket, same_runs};
use crate::pipeline::runs::RunRecord;
use crate::pipeline::ticket::{
    block_evidence, board_graph, fm_str, has_block_evidence, non_empty, opt_view, ticket_fields,
    ticket_pipeline, Task,
};
use crate::text::{chars_of, eq_ci, eq_ci_str, str_eq};

verus! {

/// The `origin` a generated idea ticket carries.
pub const IDEA_ORIGIN: &'static str = "generated";

/// How many ledger records belong to ticket `id` (trimmed,
/// case-insensitive).
pub open spec fn tally(runs: Seq<RunRecord>, id: Seq<char>) -> nat
    decreases runs.len(),
{
    if runs.len() == 0 {
        0
    } else {
        tally(runs.drop_last(), id) + if eq_ci(runs.last().ticket@, id) {
            1nat
        } else {
            0nat
        }
    }
}

/// The positions among the first `n` tickets that `keep` selects, in
/// board order.
pub open spec fn picks(tasks: Seq<Task>, keep: spec_fn(Task) -> bool, n: int) -> Seq<int>
    decreases n,
{
    if n <= 0 {
        seq![]
    } else if keep(tasks[n - 1]) {
        picks(tasks, keep, n - 1).push(n - 1)
    } else {
        picks(tasks, keep, n - 1)
    }
}

/// How many leading entries of the (sorted) `s` sort no later than `k`.
pub open spec fn key_pos(s: Seq<(Seq<char>, int)>, k: Seq<char>) -> nat
    decreases s.len(),
{
    if s.len() == 0 {
        0
    } else if !lex_lt(k, s[0].0) {
        1 + key_pos(s.drop_first(), k)
    } else {
        0
    }
}

/// A stable sort by key: entries with equal keys keep their order.
pub open spec fn sort_keyed(s: Seq<(Seq<char>, int)>) -> Seq<(Seq<char>, int)>
    decreases s.len(),
{
    if s.len() == 0 {
        seq![]
    } else {
        let r = sort_keyed(s.drop_last());
        r.insert(key_pos(r, s.last().0) as int, s.last())
    }
}

/// The positions `ix`, each paired with its ticket's key.
pub open spec fn keyed(tasks: Seq<Task>, ix: Seq<int>, key: spec_fn(Task) -> Seq<char>) -> Seq<
    (Seq<char>, int),
> {
    ix.map_values(|i: int| (key(tasks[i]), i))
}

/// The ticket sits in its pipeline's human lane.
pub open spec fn in_human_lane(pipelines: Seq<Pipeline>, t: Task) -> bool {
    match non_empty(fm_str(t.extra@, "pipeline"@)) {
        Some(pid) => match pipeline_from(pipelines, pid, 0) {
            Some(k) => match resolve_idx(pipelines[k].lanes@, t.status_raw@) {
                Some(l) => pipelines[k].lanes@[l].human,
                None => false,
            },
            None => false,
        },
        None => false,
    }
}

/// A trimmed optional value, or empty.
pub open spec fn or_empty(o: Option<Seq<char>>) -> Seq<char> {
    match o {
        Some(s) => s,
        None => seq![],
    }
}

pub open spec fn blocked_key(t: Task) -> Seq<char> {
    or_empty(non_empty(fm_str(t.extra@, "blocked_at"@)))
}

/// Unblocked, but still remembering where it goes home.
pub open spec fn newly_unblocked(t: Task) -> bool {
    !block_evidence(t.extra@) && non_empty(fm_str(t.extra@, "return_lane"@)).is_some()
}

pub open spec fn new_idea(t: Task, today: Seq<char>) -> bool {
    non_empty(fm_str(t.extra@, "origin"@)) == Some(IDEA_ORIGIN@) && t.created@ == today
}

pub type AwaitingView = (Seq<char>, Seq<char>, Seq<char>, nat);

pub type UnblockedEntryView = (Seq<char>, Seq<char>, Seq<char>);

/// A blocked entry: id, title, `blocked_at`, root blockers as written,
/// `block_reason`, run count.
pub type BlockedView = (Seq<char>, Seq<char>, Option<Seq<char>>, Seq<Seq<char>>, Option<Seq<char>>, nat);

pub type MovedView = (Seq<char>, Seq<char>, Seq<char>, nat);

pub type IdeaView = (Seq<char>, Seq<char>, Option<Seq<char>>);

pub open spec fn awaiting_view(e: AwaitingReviewEntry) -> AwaitingView {
    (e.ticket_id@, e.title@, e.updated@, e.run_count as nat)
}

pub open spec fn unblocked_entry_view(e: UnblockedDigestEntry) -> UnblockedEntryView {
    (e.ticket_id@, e.title@, e.return_lane@)
}

pub open spec fn blocked_view(e: BlockedDigestEntry) -> BlockedView {
    (
        e.ticket_id@,
        e.title@,
        opt_view(e.blocked_at),
        strs(e.root_blockers@),
        opt_view(e.block_reason),
        e.run_count as nat,
    )
}

pub open spec fn moved_view(e: MovedEntry) -> MovedView {
    (e.ticket_id@, e.title@, e.lane@, e.run_count as nat)
}

pub open spec fn idea_view(e: IdeaEntry) -> IdeaView {
    (e.ticket_id@, e.title@, opt_view(e.spawned_by))
}

/// The awaiting-review group: tickets in a human lane, oldest `updated`
/// first.
pub open spec fn awaiting_group(tasks: Seq<Task>, pipelines: Seq<Pipeline>, runs: Seq<RunRecord>) -> Seq<
    AwaitingView,
> {
    sort_keyed(
        keyed(
            tasks,
            picks(tasks, |t: Task| in_human_lane(pipelines, t), tasks.len() as int),
            |t: Task| t.updated@,
        ),
    ).map_values(
        |p: (Seq<char>, int)|
            (tasks[p.1].id@, tasks[p.1].title@, tasks[p.1].updated@, tally(runs, tasks[p.1].id@)),
    )
}

/// The newly-unblocked group, in board order, with return lanes.
pub open spec fn unblocked_group(tasks: Seq<Task>) -> Seq<UnblockedEntryView> {
    picks(tasks, |t: Task| newly_unblocked(t), tasks.len() as int).map_values(
        |i: int|
            (
                tasks[i].id@,
                tasks[i].title@,
                or_empty(non_empty(fm_str(tasks[i].extra@, "return_lane"@))),
            ),
    )
}

/// The positions of the blocked group: tickets carrying block evidence,
/// oldest `blocked_at` first.
pub open spec fn blocked_order(tasks: Seq<Task>) -> Seq<(Seq<char>, int)> {
    sort_keyed(
        keyed(
            tasks,
            picks(tasks, |t: Task| block_evidence(t.extra@), tasks.len() as int),
            |t: Task| blocked_key(t),
        ),
    )
}

pub open spec fn blocked_group(tasks: Seq<Task>, runs: Seq<RunRecord>) -> Seq<BlockedView> {
    blocked_order(tasks).map_values(
        |p: (Seq<char>, int)|
            (
                tasks[p.1].id@,
                tasks[p.1].title@,
                non_empty(fm_str(tasks[p.1].extra@, "blocked_at"@)),
                root_leaves(board_graph(tasks), tasks[p.1].id@),
                non_empty(fm_str(tasks[p.1].extra@, "block_reason"@)),
                tally(runs, tasks[p.1].id@),
            ),
    )
}

/// The moved-today group, in board order: `updated` is `today`.
pub open spec fn moved_group(tasks: Seq<Task>, runs: Seq<RunRecord>, today: Seq<char>) -> Seq<MovedView> {
    picks(tasks, |t: Task| t.updated@ == today, tasks.len() as int).map_values(
        |i: int|
            (
                tasks[i].id@,
                tasks[i].title@,
                match tasks[i].lane {
                    Some(l) => l@,
                    None => tasks[i].status_raw@,
                },
                tally(runs, tasks[i].id@),
            ),
    )
}

/// The new-ideas group, in board order: generated and created today.
pub open spec fn ideas_group(tasks: Seq<Task>, today: Seq<char>) -> Seq<IdeaView> {
    picks(tasks, |t: Task| new_idea(t, today), tasks.len() as int).map_values(
        |i: int|
            (tasks[i].id@, tasks[i].title@, non_empty(fm_str(tasks[i].extra@, "spawned_by"@))),
    )
}

fn count_runs(runs: &[RunRecord], id: &str) -> (n: usize)
    ensures
        n == tally(runs@, id@),
{
    let mut n: usize = 0;
    let mut i: usize = 0;
    while i < runs.len()
        invariant
            i <= runs.len(),
            n == tally(runs@.take(i as int), id@),
            n <= i,
        decreases runs.len() - i,
    {
        assert(runs@.take(i + 1).drop_last() =~= runs@.take(i as int));
        if eq_ci_str(runs[i].ticket.as_str(), id) {
            n = n + 1;
        }
        i = i + 1;
    }
    assert(runs@.take(runs@.len() as int) =~= runs@);
    n
}

fn sits_in_human_lane(t: &Task, pipelines: &[Pipeline]) -> (r: bool)
    ensures
        r == in_human_lane(pipelines@, *t),
{
    match ticket_pipeline(t) {
        Some(pid) => match find_pipeline(pipelines, pid.as_str()) {
            Some(p) => match resolve_lane(p, t.status_raw.as_str()) {
                Some(l) => l.human,
                None => false,
            },
            None => false,
        },
        None => false,
    }
}

pub open spec fn pairs_view(v: Seq<(String, usize)>) -> Seq<(Seq<char>, int)> {
    v.map_values(|p: (String, usize)| (p.0@, p.1 as int))
}

proof fn lemma_key_pos_bound(s: Seq<(Seq<char>, int)>, k: Seq<char>)
    ensures
        key_pos(s, k) <= s.len(),
    decreases s.len(),
{
    if s.len() > 0 && !lex_lt(k, s[0].0) {
        lemma_key_pos_bound(s.drop_first(), k);
    }
}

/// Stable insertion sort by key.
pub(crate) fn sort_pairs(items: &Vec<(String, usize)>) -> (r: Vec<(String, usize)>)
    ensures
        pairs_view(r@) == sort_keyed(pairs_view(items@)),
{
    let ghost all = pairs_view(items@);
    let mut out: Vec<(String, usize)> = Vec::new();
    let mut i: usize = 0;
    while i < items.len()
        invariant
            i <= items.len(),
            all == pairs_view(items@),
            pairs_view(out@) == sort_keyed(all.take(i as int)),
        decreases items.len() - i,
    {
        let key = chars_of(items[i].0.as_str());
        let ghost sorted = pairs_view(out@);
        proof {
            lemma_key_pos_bound(sorted, key@);
            assert(sorted.skip(0) =~= sorted);
        }
        let mut k: usize = 0;
        while k < out.len() && !vec_lt(&key, &chars_of(out[k].0.as_str()))
            invariant
                k <= out.len(),
                pairs_view(out@) == sorted,
                key_pos(sorted, key@) == k + key_pos(sorted.skip(k as int), key@),
            decreases out.len() - k,
        {
            proof {
                assert(sorted.skip(k as int)[0] == sorted[k as int]);
                assert(sorted.skip(k as int).drop_first() =~= sorted.skip(k + 1));
            }
            k = k + 1;
        }
        proof {
            if k < out.len() {
                assert(sorted.skip(k as int)[0] == sorted[k as int]);
            }
            assert(key_pos(sorted, key@) == k);
            assert(all.take(i + 1).drop_last() =~= all.take(i as int));
            assert(all.take(i + 1).last() == all[i as int]);
        }
        let item = (items[i].0.clone(), items[i].1);
        out.insert(k, item);
        proof {
            assert(pairs_view(out@) =~= sorted.insert(k as int, (item.0@, item.1 as int)));
        }
        i = i + 1;
    }
    assert(all.take(items.len() as int) =~= all);
    out
}

proof fn lemma_sort_keyed(s: Seq<(Seq<char>, int)>)
    ensures
        sort_keyed(s).len() == s.len(),
        forall|j: int| 0 <= j < s.len() ==> s.contains(#[trigger] sort_keyed(s)[j]),
    decreases s.len(),
{
    if s.len() > 0 {
        let r = sort_keyed(s.drop_last());
        lemma_sort_keyed(s.drop_last());
        lemma_key_pos_bound(r, s.last().0);
        let k = key_pos(r, s.last().0) as int;
        assert forall|j: int| 0 <= j < s.len() implies s.contains(#[trigger] sort_keyed(s)[j]) by {
            if j < k {
                assert(sort_keyed(s)[j] == r[j]);
                assert(s.drop_last().contains(r[j]));
                let m = choose|m: int| 0 <= m < s.drop_last().len() && s.drop_last()[m] == r[j];
                assert(s[m] == r[j]);
            } else if j == k {
                assert(s[s.len() - 1] == s.last());
            } else {
                assert(sort_keyed(s)[j] == r[j - 1]);
                assert(s.drop_last().contains(r[j - 1]));
                let m = choose|m: int| 0 <= m < s.drop_last().len() && s.drop_last()[m] == r[j - 1];
                assert(s[m] == r[j - 1]);
            }
        }
    }
}

/// Tickets in a human lane, oldest `updated` first.
fn awaiting_entries(tasks: &[Task], pipelines: &[Pipeline], runs: &[RunRecord]) -> (r: Vec<
    AwaitingReviewEntry,
>)
    ensures
        r@.map_values(|e: AwaitingReviewEntry| awaiting_view(e)) == awaiting_group(
            tasks@,
            pipelines@,
            runs@,
        ),
{
    let ghost keep_human = |t: Task| in_human_lane(pipelines@, t);
    let ghost key_updated = |t: Task| t.updated@;
    let mut items: Vec<(String, usize)> = Vec::new();
    let mut i: usize = 0;
    while i < tasks.len()
        invariant
            i <= tasks.len(),
            keep_human == (|t: Task| in_human_lane(pipelines@, t)),
            key_updated == (|t: Task| t.updated@),
            pairs_view(items@) == keyed(tasks@, picks(tasks@, keep_human, i as int), key_updated),
            forall|j: int| 0 <= j < items@.len() ==> (#[trigger] items@[j]).1 < i,
        decreases tasks.len() - i,
    {
        let ghost before = items@;
        if sits_in_human_lane(&tasks[i], pipelines) {
            items.push((tasks[i].updated.clone(), i));
            proof {
                assert(pairs_view(items@) =~= pairs_view(before).push((tasks@[i as int].updated@, i as int)));
                assert(keyed(tasks@, picks(tasks@, keep_human, i as int), key_updated).push(
                    (key_updated(tasks@[i as int]), i as int),
                ) =~= keyed(tasks@, picks(tasks@, keep_human, i as int).push(i as int), key_updated));
            }
        }
        i = i + 1;
    }
    let sorted = sort_pairs(&items);
    let ghost sv = pairs_view(sorted@);
    proof {
        lemma_sort_keyed(pairs_view(items@));
        assert forall|j: int| 0 <= j < sv.len() implies 0 <= (#[trigger] sv[j]).1 < tasks@.len() by {
            assert(pairs_view(items@).contains(sv[j]));
            let m = choose|m: int| 0 <= m < pairs_view(items@).len() && pairs_view(items@)[m] == sv[j];
            assert(items@[m].1 < tasks@.len());
        }
    }
    let ghost view_of = |p: (Seq<char>, int)|
        (tasks@[p.1].id@, tasks@[p.1].title@, tasks@[p.1].updated@, tally(runs@, tasks@[p.1].id@));
    let mut out: Vec<AwaitingReviewEntry> = Vec::new();
    let mut j: usize = 0;
    while j < sorted.len()
        invariant
            j <= sorted.len(),
            sv == pairs_view(sorted@),
            forall|k: int| 0 <= k < sv.len() ==> 0 <= (#[trigger] sv[k]).1 < tasks@.len(),
            view_of == (|p: (Seq<char>, int)|
                (tasks@[p.1].id@, tasks@[p.1].title@, tasks@[p.1].updated@, tally(runs@, tasks@[p.1].id@))),
            out@.map_values(|e: AwaitingReviewEntry| awaiting_view(e)) == sv.take(j as int).map_values(view_of),
        decreases sorted.len() - j,
    {
        let k = sorted[j].1;
        assert(sv[j as int].1 == k as int);
        let t = &tasks[k];
        let e = AwaitingReviewEntry {
            ticket_id: t.id.clone(),
            title: t.title.clone(),
            updated: t.updated.clone(),
            run_count: count_runs(runs, t.id.as_str()),
        };
        let ghost before = out@;
        out.push(e);
        proof {
            assert(sv.take(j + 1) =~= sv.take(j as int).push(sv[j as int]));
            assert(out@.map_values(|e: AwaitingReviewEntry| awaiting_view(e)) =~= before.map_values(
                |e: AwaitingReviewEntry| awaiting_view(e),
            ).push(awaiting_view(e)));
            assert(sv.take(j + 1).map_values(view_of) =~= sv.take(j as int).map_values(view_of).push(
                view_of(sv[j as int]),
            ));
        }
        j = j + 1;
    }
    proof {
        assert(sv.take(sv.len() as int) =~= sv);
        assert(keyed(tasks@, picks(tasks@, keep_human, tasks@.len() as int), key_updated) == keyed(
            tasks@,
            picks(tasks@, |t: Task| in_human_lane(pipelines@, t), tasks@.len() as int),
            |t: Task| t.updated@,
        ));
    }
    out
}

/// Tickets carrying block evidence, oldest `blocked_at` first, each with
/// the root blockers of its chain in `graph`.
fn blocked_entries(tasks: &[Task], graph: &BlockGraph, runs: &[RunRecord]) -> (r: Vec<
    BlockedDigestEntry,
>)
    requires
        graph@ == board_graph(tasks@),
    ensures
        r@.map_values(|e: BlockedDigestEntry| blocked_view(e)) == blocked_group(tasks@, runs@),
{
    let ghost keep = |t: Task| block_evidence(t.extra@);
    let ghost key = |t: Task| blocked_key(t);
    let mut items: Vec<(String, usize)> = Vec::new();
    let mut i: usize = 0;
    while i < tasks.len()
        invariant
            i <= tasks.len(),
            keep == (|t: Task| block_evidence(t.extra@)),
            key == (|t: Task| blocked_key(t)),
            pairs_view(items@) == keyed(tasks@, picks(tasks@, keep, i as int), key),
            forall|j: int| 0 <= j < items@.len() ==> (#[trigger] items@[j]).1 < i,
        decreases tasks.len() - i,
    {
        let ghost before = items@;
        if has_block_evidence(&tasks[i]) {
            let k = match ticket_fields(&tasks[i]).blocked_at {
                Some(b) => b,
                None => String::new(),
            };
            items.push((k, i));
            proof {
                assert(pairs_view(items@) =~= pairs_view(before).push((blocked_key(tasks@[i as int]), i as int)));
                assert(keyed(tasks@, picks(tasks@, keep, i as int), key).push(
                    (key(tasks@[i as int]), i as int),
                ) =~= keyed(tasks@, picks(tasks@, keep, i as int).push(i as int), key));
            }
        }
        i = i + 1;
    }
    let sorted = sort_pairs(&items);
    let ghost sv = pairs_view(sorted@);
    proof {
        lemma_sort_keyed(pairs_view(items@));
        assert forall|j: int| 0 <= j < sv.len() implies 0 <= (#[trigger] sv[j]).1 < tasks@.len() by {
            assert(pairs_view(items@).contains(sv[j]));
            let m = choose|m: int| 0 <= m < pairs_view(items@).len() && pairs_view(items@)[m] == sv[j];
            assert(items@[m].1 < tasks@.len());
        }
        assert(keyed(tasks@, picks(tasks@, keep, tasks@.len() as int), key) == keyed(
            tasks@,
            picks(tasks@, |t: Task| block_evidence(t.extra@), tasks@.len() as int),
            |t: Task| blocked_key(t),
        ));
    }
    let ghost view_of = |p: (Seq<char>, int)|
        (
            tasks@[p.1].id@,
            tasks@[p.1].title@,
            non_empty(fm_str(tasks@[p.1].extra@, "blocked_at"@)),
            root_leaves(board_graph(tasks@), tasks@[p.1].id@),
            non_empty(fm_str(tasks@[p.1].extra@, "block_reason"@)),
            tally(runs@, tasks@[p.1].id@),
        );
    let mut out: Vec<BlockedDigestEntry> = Vec::new();
    let mut j: usize = 0;
    while j < sorted.len()
        invariant
            j <= sorted.len(),
            sv == pairs_view(sorted@),
            forall|k: int| 0 <= k < sv.len() ==> 0 <= (#[trigger] sv[k]).1 < tasks@.len(),
            view_of == (|p: (Seq<char>, int)|
                (
                    tasks@[p.1].id@,
                    tasks@[p.1].title@,
                    non_empty(fm_str(tasks@[p.1].extra@, "blocked_at"@)),
                    root_leaves(board_graph(tasks@), tasks@[p.1].id@),
                    non_empty(fm_str(tasks@[p.1].extra@, "block_reason"@)),
                    tally(runs@, tasks@[p.1].id@),
                )),
            graph@ == board_graph(tasks@),
            out@.map_values(|e: BlockedDigestEntry| blocked_view(e)) == sv.take(j as int).map_values(view_of),
        decreases sorted.len() - j,
    {
        let k = sorted[j].1;
        assert(sv[j as int].1 == k as int);
        let t = &tasks[k];
        let f = ticket_fields(t);
        let roots = root_blockers(graph, t.id.as_str());
        let e = BlockedDigestEntry {
            ticket_id: t.id.clone(),
            title: t.title.clone(),
            blocked_at: f.blocked_at,
            root_blockers: roots,
            block_reason: f.block_reason,
            run_count: count_runs(runs, t.id.as_str()),
        };
        let ghost before = out@;
        out.push(e);
        proof {
            assert(sv.take(j + 1) =~= sv.take(j as int).push(sv[j as int]));
            assert(out@.map_values(|e: BlockedDigestEntry| blocked_view(e)) =~= before.map_values(
                |e: BlockedDigestEntry| blocked_view(e),
            ).push(blocked_view(e)));
            assert(sv.take(j + 1).map_values(view_of) =~= sv.take(j as int).map_values(view_of).push(
                view_of(sv[j as int]),
            ));
        }
        j = j + 1;
    }
    assert(sv.take(sv.len() as int) =~= sv);
    out
}

/// Unblocked tickets that still remember where they go home, in board
/// order.
fn unblocked_entries(tasks: &[Task]) -> (r: Vec<UnblockedDigestEntry>)
    ensures
        r@.map_values(|e: UnblockedDigestEntry| unblocked_entry_view(e)) == unblocked_group(tasks@),
{
    let ghost keep = |t: Task| newly_unblocked(t);
    let ghost view_of = |i: int|
        (
            tasks@[i].id@,
            tasks@[i].title@,
            or_empty(non_empty(fm_str(tasks@[i].extra@, "return_lane"@))),
        );
    let mut out: Vec<UnblockedDigestEntry> = Vec::new();
    let mut i: usize = 0;
    while i < tasks.len()
        invariant
            i <= tasks.len(),
            keep == (|t: Task| newly_unblocked(t)),
            view_of == (|i: int|
                (
                    tasks@[i].id@,
                    tasks@[i].title@,
                    or_empty(non_empty(fm_str(tasks@[i].extra@, "return_lane"@))),
                )),
            out@.map_values(|e: UnblockedDigestEntry| unblocked_entry_view(e)) == picks(
                tasks@,
                keep,
                i as int,
            ).map_values(view_of),
        decreases tasks.len() - i,
    {
        let t = &tasks[i];
        let f = ticket_fields(t);
        let evidence = f.blocked_by.len() > 0 || f.block_reason.is_some();
        if !evidence && f.return_lane.is_some() {
            let e = UnblockedDigestEntry {
                ticket_id: t.id.clone(),
                title: t.title.clone(),
                return_lane: match f.return_lane {
                    Some(rl) => rl,
                    None => String::new(),
                },
            };
            let ghost before = out@;
            out.push(e);
            proof {
                assert(out@.map_values(|e: UnblockedDigestEntry| unblocked_entry_view(e)) =~= before.map_values(
                    |e: UnblockedDigestEntry| unblocked_entry_view(e),
                ).push(unblocked_entry_view(e)));
                assert(picks(tasks@, keep, i + 1).map_values(view_of) =~= picks(tasks@, keep, i as int).map_values(
                    view_of,
                ).push(view_of(i as int)));
            }
        }
        i = i + 1;
    }
    out
}

/// Tickets whose `updated` is `today`, in board order.
fn moved_entries(tasks: &[Task], runs: &[RunRecord], today: &str) -> (r: Vec<MovedEntry>)
    ensures
        r@.map_values(|e: MovedEntry| moved_view(e)) == moved_group(tasks@, runs@, today@),
{
    let ghost keep = |t: Task| t.updated@ == today@;
    let ghost view_of = |i: int|
        (
            tasks@[i].id@,
            tasks@[i].title@,
            match tasks@[i].lane {
                Some(l) => l@,
                None => tasks@[i].status_raw@,
            },
            tally(runs@, tasks@[i].id@),
        );
    let mut out: Vec<MovedEntry> = Vec::new();
    let mut i: usize = 0;
    while i < tasks.len()
        invariant
            i <= tasks.len(),
            keep == (|t: Task| t.updated@ == today@),
            view_of == (|i: int|
                (
                    tasks@[i].id@,
                    tasks@[i].title@,
                    match tasks@[i].lane {
                        Some(l) => l@,
                        None => tasks@[i].status_raw@,
                    },
                    tally(runs@, tasks@[i].id@),
                )),
            out@.map_values(|e: MovedEntry| moved_view(e)) == picks(tasks@, keep, i as int).map_values(view_of),
        decreases tasks.len() - i,
    {
        let t = &tasks[i];
        if str_eq(t.updated.as_str(), today) {
            let lane = match &t.lane {
                Some(l) => l.clone(),
                None => t.status_raw.clone(),
            };
            let e = MovedEntry {
                ticket_id: t.id.clone(),
                title: t.title.clone(),
                lane,
                run_count: count_runs(runs, t.id.as_str()),
            };
            let ghost before = out@;
            out.push(e);
            proof {
                assert(out@.map_values(|e: MovedEntry| moved_view(e)) =~= before.map_values(
                    |e: MovedEntry| moved_view(e),
                ).push(moved_view(e)));
                assert(picks(tasks@, keep, i + 1).map_values(view_of) =~= picks(tasks@, keep, i as int).map_values(
                    view_of,
                ).push(view_of(i as int)));
            }
        }
        i = i + 1;
    }
    out
}

/// Generated ideas created `today`, in board order.
fn idea_entries(tasks: &[Task], today: &str) -> (r: Vec<IdeaEntry>)
    ensures
        r@.map_values(|e: IdeaEntry| idea_view(e)) == ideas_group(tasks@, today@),
{
    let ghost keep = |t: Task| new_idea(t, today@);
    let ghost view_of = |i: int|
        (tasks@[i].id@, tasks@[i].title@, non_empty(fm_str(tasks@[i].extra@, "spawned_by"@)));
    let mut out: Vec<IdeaEntry> = Vec::new();
    let mut i: usize = 0;
    while i < tasks.len()
        invariant
            i <= tasks.len(),
            keep == (|t: Task| new_idea(t, today@)),
            view_of == (|i: int|
                (tasks@[i].id@, tasks@[i].title@, non_empty(fm_str(tasks@[i].extra@, "spawned_by"@)))),
            out@.map_values(|e: IdeaEntry| idea_view(e)) == picks(tasks@, keep, i as int).map_values(view_of),
        decreases tasks.len() - i,
    {
        let t = &tasks[i];
        let f = ticket_fields(t);
        let generated = match &f.origin {
            Some(o) => str_eq(o.as_str(), IDEA_ORIGIN),
            None => false,
        };
        if generated && str_eq(t.created.as_str(), today) {
            let e = IdeaEntry { ticket_id: t.id.clone(), title: t.title.clone(), spawned_by: f.spawned_by };
            let ghost before = out@;
            out.push(e);
            proof {
                assert(out@.map_values(|e: IdeaEntry| idea_view(e)) =~= before.map_values(
                    |e: IdeaEntry| idea_view(e),
                ).push(idea_view(e)));
                assert(picks(tasks@, keep, i + 1).map_values(view_of) =~= picks(tasks@, keep, i as int).map_values(
                    view_of,
                ).push(view_of(i as int)));
            }
        }
        i = i + 1;
    }
    out
}

/// Compose the digest from the board, the pipelines and the ledger, as of
/// `today`. `known_running_ids` are the runs this session has itself seen
/// running; the others still marked running are the stale group.
pub fn compose_digest(
    tasks: &[Task],
    pipelines: &[Pipeline],
    runs: &[RunRecord],
    known_running_ids: &[String],
    today: &str,
) -> (d: Digest)
    ensures
        d.awaiting_review@.map_values(|e: AwaitingReviewEntry| awaiting_view(e)) == awaiting_group(
            tasks@,
            pipelines@,
            runs@,
        ),
        d.newly_unblocked@.map_values(|e: UnblockedDigestEntry| unblocked_entry_view(e))
            == unblocked_group(tasks@),
        d.blocked@.map_values(|e: BlockedDigestEntry| blocked_view(e)) == blocked_group(tasks@, runs@),
        d.moved_today@.map_values(|e: MovedEntry| moved_view(e)) == moved_group(tasks@, runs@, today@),
        d.new_ideas@.map_values(|e: IdeaEntry| idea_view(e)) == ideas_group(tasks@, today@),
        same_runs(d.stale_runs@, in_bucket(runs@, known_running_ids@, 3, runs@.len() as int)),
{
    let graph = BlockGraph::from_tasks(tasks);
    let queue = derive_queue(tasks, pipelines, runs, known_running_ids);
    Digest {
        awaiting_review: awaiting_entries(tasks, pipelines, runs),
        newly_unblocked: unblocked_entries(tasks),
        blocked: blocked_entries(tasks, &graph, runs),
        moved_today: moved_entries(tasks, runs, today),
        new_ideas: idea_entries(tasks, today),
        stale_runs: queue.stale,
    }
}

/// No key of `s` sorts before an earlier one.
pub open spec fn keys_sorted(s: Seq<(Seq<char>, int)>) -> bool {
    forall|i: int, j: int| 0 <= i < j < s.len() ==> !lex_lt(#[trigger] s[j].0, #[trigger] s[i].0)
}

proof fn lemma_key_pos_split(r: Seq<(Seq<char>, int)>, k: Seq<char>)
    requires
        keys_sorted(r),
    ensures
        key_pos(r, k) <= r.len(),
        forall|i: int| 0 <= i < key_pos(r, k) ==> !lex_lt(k, #[trigger] r[i].0),
        forall|i: int| key_pos(r, k) <= i < r.len() ==> lex_lt(k, #[trigger] r[i].0),
    decreases r.len(),
{
    if r.len() > 0 {
        if !lex_lt(k, r[0].0) {
            let t = r.drop_first();
            assert forall|i: int, j: int| 0 <= i < j < t.len() implies !lex_lt(#[trigger] t[j].0, #[trigger] t[i].0) by {
                assert(t[i] == r[i + 1] && t[j] == r[j + 1]);
            }
            lemma_key_pos_split(t, k);
            assert forall|i: int| 0 <= i < key_pos(r, k) implies !lex_lt(k, #[trigger] r[i].0) by {
                if i > 0 {
                    assert(r[i] == t[i - 1]);
                }
            }
            assert forall|i: int| key_pos(r, k) <= i < r.len() implies lex_lt(k, #[trigger] r[i].0) by {
                assert(r[i] == t[i - 1]);
            }
        } else {
            assert forall|i: int| 0 <= i < r.len() implies lex_lt(k, #[trigger] r[i].0) by {
                if i > 0 {
                    assert(!lex_lt(r[i].0, r[0].0));
                    if r[i].0 != r[0].0 {
                        lemma_lex_total(r[i].0, r[0].0);
                        lemma_lex_transitive(k, r[0].0, r[i].0);
                    }
                }
            }
        }
    }
}

proof fn lemma_sort_keyed_sorted(s: Seq<(Seq<char>, int)>)
    ensures
        keys_sorted(sort_keyed(s)),
    decreases s.len(),
{
    if s.len() > 0 {
        let r = sort_keyed(s.drop_last());
        lemma_sort_keyed_sorted(s.drop_last());
        let x = s.last();
        lemma_key_pos_split(r, x.0);
        let p = key_pos(r, x.0) as int;
        let n = r.insert(p, x);
        assert(sort_keyed(s) == n);
        assert forall|i: int, j: int| 0 <= i < j < n.len() implies !lex_lt(#[trigger] n[j].0, #[trigger] n[i].0) by {
            if j < p {
                assert(n[i] == r[i] && n[j] == r[j]);
            } else if j == p {
                assert(n[i] == r[i] && n[j] == x);
            } else if i == p {
                assert(n[i] == x && n[j] == r[j - 1]);
                if lex_lt(r[j - 1].0, x.0) {
                    lemma_lex_transitive(x.0, r[j - 1].0, x.0);
                    lemma_lex_irreflexive(x.0);
                }
            } else if i < p {
                assert(n[i] == r[i] && n[j] == r[j - 1]);
            } else {
                assert(n[i] == r[i - 1] && n[j] == r[j - 1]);
            }
        }
    }
}

/// The digest lists the stalest first: awaiting review by `updated`, and
/// blocked work by `blocked_at` (absent reads as empty), never a later
/// entry sorting before an earlier one.
pub proof fn law_digest_groups_oldest_first(
    tasks: Seq<Task>,
    pipelines: Seq<Pipeline>,
    runs: Seq<RunRecord>,
)
    ensures
        forall|i: int, j: int|
            0 <= i < j < awaiting_group(tasks, pipelines, runs).len() ==> !lex_lt(
                (#[trigger] awaiting_group(tasks, pipelines, runs)[j]).2,
                (#[trigger] awaiting_group(tasks, pipelines, runs)[i]).2,
            ),
        forall|i: int, j: int|
            0 <= i < j < blocked_group(tasks, runs).len() ==> !lex_lt(
                or_empty((#[trigger] blocked_group(tasks, runs)[j]).2),
                or_empty((#[trigger] blocked_group(tasks, runs)[i]).2),
            ),
{
    let ka = keyed(
        tasks,
        picks(tasks, |t: Task| in_human_lane(pipelines, t), tasks.len() as int),
        |t: Task| t.updated@,
    );
    lemma_sort_keyed(ka);
    lemma_sort_keyed_sorted(ka);
    let sa = sort_keyed(ka);
    assert forall|j: int| 0 <= j < sa.len() implies (#[trigger] sa[j]).0 == tasks[sa[j].1].updated@ by {
        assert(ka.contains(sa[j]));
    }
    let kb = keyed(
        tasks,
        picks(tasks, |t: Task| block_evidence(t.extra@), tasks.len() as int),
        |t: Task| blocked_key(t),
    );
    lemma_sort_keyed(kb);
    lemma_sort_keyed_sorted(kb);
    let sb = sort_keyed(kb);
    assert forall|j: int| 0 <= j < sb.len() implies (#[trigger] sb[j]).0 == blocked_key(tasks[sb[j].1]) by {
        assert(kb.contains(sb[j]));
    }
    assert forall|i: int, j: int| 0 <= i < j < awaiting_group(tasks, pipelines, runs).len() implies !lex_lt(
        (#[trigger] awaiting_group(tasks, pipelines, runs)[j]).2,
        (#[trigger] awaiting_group(tasks, pipelines, runs)[i]).2,
    ) by {
        assert(sa[i].0 == tasks[sa[i].1].updated@);
        assert(sa[j].0 == tasks[sa[j].1].updated@);
    }
    assert forall|i: int, j: int| 0 <= i < j < blocked_group(tasks, runs).len() implies !lex_lt(
        or_empty((#[trigger] blocked_group(tasks, runs)[j]).2),
        or_empty((#[trigger] blocked_group(tasks, runs)[i]).2),
    ) by {
        assert(sb[i].0 == blocked_key(tasks[sb[i].1]));
        assert(sb[j].0 == blocked_key(tasks[sb[j].1]));
    }
}

proof fn lemma_picks_in_range(tasks: Seq<Task>, keep: spec_fn(Task) -> bool, n: int)
    requires
        n <= tasks.len(),
    ensures
        forall|j: int|
            0 <= j < picks(tasks, keep, n).len() ==> 0 <= #[trigger] picks(tasks, keep, n)[j] < n && keep(
                tasks[picks(tasks, keep, n)[j]],
            ),
        forall|a: int, b: int|
            0 <= a < b < picks(tasks, keep, n).len() ==> #[trigger] picks(tasks, keep, n)[a] < #[trigger] picks(
                tasks,
                keep,
                n,
            )[b],
        forall|i: int| 0 <= i < n && keep(tasks[i]) ==> #[trigger] picks(tasks, keep, n).contains(i),
    decreases n,
{
    if n > 0 {
        lemma_picks_in_range(tasks, keep, n - 1);
        let p = picks(tasks, keep, n - 1);
        let q = picks(tasks, keep, n);
        assert forall|j: int| 0 <= j < q.len() implies 0 <= #[trigger] q[j] < n && keep(tasks[q[j]]) by {
            if j < p.len() {
                assert(q[j] == p[j]);
            }
        }
        assert forall|a: int, b: int| 0 <= a < b < q.len() implies #[trigger] q[a] < #[trigger] q[b] by {
            if b < p.len() {
                assert(q[a] == p[a] && q[b] == p[b]);
            } else {
                assert(q[a] == p[a]);
            }
        }
        assert forall|i: int| 0 <= i < n && keep(tasks[i]) implies #[trigger] q.contains(i) by {
            if i < n - 1 {
                assert(p.contains(i));
                let m = choose|m: int| 0 <= m < p.len() && p[m] == i;
                assert(q[m] == i);
            } else {
                assert(q[q.len() - 1] == i);
            }
        }
    }
}

proof fn lemma_sort_keyed_multiset(s: Seq<(Seq<char>, int)>)
    ensures
        sort_keyed(s).to_multiset() == s.to_multiset(),
    decreases s.len(),
{
    if s.len() > 0 {
        let r = sort_keyed(s.drop_last());
        lemma_sort_keyed_multiset(s.drop_last());
        lemma_key_pos_bound(r, s.last().0);
        vstd::seq_lib::to_multiset_insert(r, key_pos(r, s.last().0) as int, s.last());
        vstd::seq_lib::to_multiset_build(s.drop_last(), s.last());
        assert(s.drop_last().push(s.last()) =~= s);
        assert(sort_keyed(s) == r.insert(key_pos(r, s.last().0) as int, s.last()));
        assert(sort_keyed(s).to_multiset() =~= s.to_multiset());
    } else {
        assert(s =~= Seq::<(Seq<char>, int)>::empty());
        assert(sort_keyed(s) =~= s);
    }
}

/// Every blocked entry of a digest carries what its own ticket says: the
/// ticket with that id, its title, and its `blocked_at` and
/// `block_reason` (trimmed, absent when blank).
pub proof fn law_blocked_entries_carry_their_ticket(
    tasks: Seq<Task>,
    runs: Seq<RunRecord>,
    blocked: Seq<BlockedDigestEntry>,
)
    requires
        blocked.map_values(|e: BlockedDigestEntry| blocked_view(e)) == blocked_group(tasks, runs),
    ensures
        forall|j: int|
            0 <= j < blocked.len() ==> exists|i: int|
                0 <= i < tasks.len() && #[trigger] tasks[i].id@ == (#[trigger] blocked[j]).ticket_id@
                    && blocked[j].title@ == tasks[i].title@
                    && opt_view(blocked[j].blocked_at) == non_empty(fm_str(tasks[i].extra@, "blocked_at"@))
                    && opt_view(blocked[j].block_reason) == non_empty(fm_str(tasks[i].extra@, "block_reason"@)),
{
    let ix = picks(tasks, |t: Task| block_evidence(t.extra@), tasks.len() as int);
    let kb = keyed(tasks, ix, |t: Task| blocked_key(t));
    lemma_picks_in_range(tasks, |t: Task| block_evidence(t.extra@), tasks.len() as int);
    lemma_sort_keyed(kb);
    let sb = sort_keyed(kb);
    assert(blocked_order(tasks) == sb);
    assert(blocked.len() == blocked_group(tasks, runs).len());
    assert forall|j: int| 0 <= j < blocked.len() implies exists|i: int|
        0 <= i < tasks.len() && #[trigger] tasks[i].id@ == (#[trigger] blocked[j]).ticket_id@
            && blocked[j].title@ == tasks[i].title@
            && opt_view(blocked[j].blocked_at) == non_empty(fm_str(tasks[i].extra@, "blocked_at"@))
            && opt_view(blocked[j].block_reason) == non_empty(fm_str(tasks[i].extra@, "block_reason"@)) by {
        assert(kb.contains(sb[j]));
        let m = choose|m: int| 0 <= m < kb.len() && kb[m] == sb[j];
        assert(kb[m].1 == ix[m]);
        let i = sb[j].1;
        assert(0 <= i < tasks.len());
        assert(blocked.map_values(|e: BlockedDigestEntry| blocked_view(e))[j] == blocked_view(blocked[j]));
        assert(blocked_view(blocked[j]) == blocked_group(tasks, runs)[j]);
        assert(tasks[i].id@ == blocked[j].ticket_id@);
    }
}

/// The blocked group holds exactly the tickets carrying block evidence,
/// each once: `ix` names the ticket behind each entry, no ticket is named
/// twice, every ticket with evidence is named, and each entry carries its
/// ticket's id, title, `blocked_at`, `block_reason`, root blockers and run
/// count.
pub proof fn law_blocked_group_is_exactly_the_blocked_tickets(
    tasks: Seq<Task>,
    runs: Seq<RunRecord>,
    blocked: Seq<BlockedDigestEntry>,
)
    requires
        blocked.map_values(|e: BlockedDigestEntry| blocked_view(e)) == blocked_group(tasks, runs),
    ensures
        exists|ix: Seq<int>|
            {
                &&& ix.len() == blocked.len()
                &&& forall|j: int|
                    0 <= j < ix.len() ==> {
                        let t = tasks[#[trigger] ix[j]];
                        &&& 0 <= ix[j] < tasks.len()
                        &&& block_evidence(t.extra@)
                        &&& blocked[j].ticket_id@ == t.id@
                        &&& blocked[j].title@ == t.title@
                        &&& opt_view(blocked[j].blocked_at) == non_empty(fm_str(t.extra@, "blocked_at"@))
                        &&& opt_view(blocked[j].block_reason) == non_empty(fm_str(t.extra@, "block_reason"@))
                        &&& strs(blocked[j].root_blockers@) == root_leaves(board_graph(tasks), t.id@)
                        &&& blocked[j].run_count == tally(runs, t.id@)
                    }
                &&& forall|a: int, b: int| 0 <= a < b < ix.len() ==> #[trigger] ix[a] != #[trigger] ix[b]
                &&& forall|i: int|
                    0 <= i < tasks.len() && block_evidence(#[trigger] tasks[i].extra@) ==> ix.contains(i)
            },
{
    let keep = |t: Task| block_evidence(t.extra@);
    let pk = picks(tasks, keep, tasks.len() as int);
    let kb = keyed(tasks, pk, |t: Task| blocked_key(t));
    lemma_picks_in_range(tasks, keep, tasks.len() as int);
    lemma_sort_keyed(kb);
    lemma_sort_keyed_multiset(kb);
    let sb = sort_keyed(kb);
    assert(blocked_order(tasks) == sb);
    let ix = sb.map_values(|p: (Seq<char>, int)| p.1);
    assert(blocked.len() == blocked_group(tasks, runs).len());
    assert forall|j: int| 0 <= j < ix.len() implies {
        let t = tasks[#[trigger] ix[j]];
        &&& 0 <= ix[j] < tasks.len()
        &&& block_evidence(t.extra@)
        &&& blocked[j].ticket_id@ == t.id@
        &&& blocked[j].title@ == t.title@
        &&& opt_view(blocked[j].blocked_at) == non_empty(fm_str(t.extra@, "blocked_at"@))
        &&& opt_view(blocked[j].block_reason) == non_empty(fm_str(t.extra@, "block_reason"@))
        &&& strs(blocked[j].root_blockers@) == root_leaves(board_graph(tasks), t.id@)
        &&& blocked[j].run_count == tally(runs, t.id@)
    } by {
        assert(kb.contains(sb[j]));
        let m = choose|m: int| 0 <= m < kb.len() && kb[m] == sb[j];
        assert(kb[m].1 == pk[m]);
        assert(blocked.map_values(|e: BlockedDigestEntry| blocked_view(e))[j] == blocked_view(blocked[j]));
    }
    assert(kb.no_duplicates()) by {
        assert forall|a: int, b: int| 0 <= a < kb.len() && 0 <= b < kb.len() && a != b implies kb[a] != kb[b] by {
            if a < b {
                assert(pk[a] < pk[b]);
            } else {
                assert(pk[b] < pk[a]);
            }
        }
    }
    kb.lemma_multiset_has_no_duplicates();
    assert forall|x: (Seq<char>, int)| sb.to_multiset().contains(x) implies sb.to_multiset().count(x) == 1 by {}
    sb.lemma_multiset_has_no_duplicates_conv();
    assert forall|a: int, b: int| 0 <= a < b < ix.len() implies #[trigger] ix[a] != #[trigger] ix[b] by {
        assert(kb.contains(sb[a]) && kb.contains(sb[b]));
        let ma = choose|m: int| 0 <= m < kb.len() && kb[m] == sb[a];
        let mb = choose|m: int| 0 <= m < kb.len() && kb[m] == sb[b];
        if ix[a] == ix[b] {
            assert(pk[ma] == pk[mb]);
            if ma < mb {
                assert(pk[ma] < pk[mb]);
            } else if mb < ma {
                assert(pk[mb] < pk[ma]);
            }
            assert(sb[a] == sb[b]);
        }
    }
    assert forall|i: int| 0 <= i < tasks.len() && block_evidence(#[trigger] tasks[i].extra@) implies ix.contains(i) by {
        assert(keep(tasks[i]));
        assert(pk.contains(i));
        let m = choose|m: int| 0 <= m < pk.len() && pk[m] == i;
        assert(kb[m] == (blocked_key(tasks[i]), i));
        assert(kb.contains(kb[m]));
        vstd::seq_lib::to_multiset_contains(kb, kb[m]);
        vstd::seq_lib::to_multiset_contains(sb, kb[m]);
        let j = choose|j: int| 0 <= j < sb.len() && sb[j] == kb[m];
        assert(ix[j] == i);
    }
}

} // verus!
