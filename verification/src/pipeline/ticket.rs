//! A ticket as the pipeline sees it: the fields every ticket has, plus
//! the frontmatter keys the pipeline reads off its pass-through map.
use vstd::prelude::*;
use crate::pipeline::graph::{clone_strings, insert_view, norm, strs, BlockGraph, GraphView};
use crate::pipeline::kinds::Target;
use crate::text::{
    chars_of, eq_ci, eq_ci_str, lower_s, parse_u32, parse_u32_spec, str_eq, string_of, trim_vec,
    trim_ws, word_key, word_key_of, is_lit, has_prefix, lower_vec, starts_with,
};

verus! {

/// A frontmatter value, as YAML writes it.
#[derive(Debug, PartialEq, Eq)]
pub enum FmValue {
    Null,
    Bool(bool),
    /// A number: its value when it is a whole number a `u64` holds, and
    /// its text.
    Number(Option<u64>, String),
    Text(String),
    Sequence(Vec<FmValue>),
    /// A mapping's entries in order, keys as values.
    Mapping(Vec<(FmValue, FmValue)>),
    /// A value with a `!tag`: the tag, and the value as the one item.
    Tagged(String, Vec<FmValue>),
}

fn copy_value(v: &FmValue) -> (r: FmValue)
    decreases v,
{
    match v {
        FmValue::Null => FmValue::Null,
        FmValue::Bool(b) => FmValue::Bool(*b),
        FmValue::Number(n, t) => FmValue::Number(*n, t.clone()),
        FmValue::Text(t) => FmValue::Text(t.clone()),
        FmValue::Sequence(items) => FmValue::Sequence(copy_values(items)),
        FmValue::Mapping(pairs) => {
            let mut out: Vec<(FmValue, FmValue)> = Vec::new();
            let mut i: usize = 0;
            while i < pairs.len()
                invariant
                    i <= pairs.len(),
                    *v == FmValue::Mapping(*pairs),
                decreases pairs.len() - i,
            {
                proof {
                    assert(decreases_to!(*v => v->Mapping_0));
                    assert(decreases_to!(*pairs => pairs@));
                    assert(decreases_to!(pairs@ => pairs@[i as int]));
                }
                let k = copy_value(&pairs[i].0);
                let x = copy_value(&pairs[i].1);
                out.push((k, x));
                i = i + 1;
            }
            FmValue::Mapping(out)
        },
        FmValue::Tagged(t, inner) => FmValue::Tagged(t.clone(), copy_values(inner)),
    }
}

fn copy_values(items: &Vec<FmValue>) -> (r: Vec<FmValue>)
    decreases items,
{
    let mut out: Vec<FmValue> = Vec::new();
    let mut i: usize = 0;
    while i < items.len()
        invariant
            i <= items.len(),
        decreases items.len() - i,
    {
        proof {
            assert(decreases_to!(*items => items@));
            assert(decreases_to!(items@ => items@[i as int]));
        }
        out.push(copy_value(&items[i]));
        i = i + 1;
    }
    out
}

/// Cloning makes a structural copy; as for a derived `Clone`, nothing
/// is stated of the result.
impl Clone for FmValue {
    fn clone(&self) -> Self {
        copy_value(self)
    }
}

/// One frontmatter key the ticket's own model does not claim.
#[derive(Debug, Clone, PartialEq, Eq)]
pub struct FmEntry {
    pub key: String,
    pub value: FmValue,
}

/// A parsed ticket.
#[derive(Debug, Clone, PartialEq, Eq)]
pub struct Task {
    pub id: String,
    pub title: String,
    /// Exactly what the file's `status` said.
    pub status_raw: String,
    /// The project the ticket belongs to.
    pub project: String,
    pub created: String,
    pub updated: String,
    /// The pipeline lane the status resolved to, when it did.
    pub lane: Option<String>,
    /// Every other frontmatter key, in file order.
    pub extra: Vec<FmEntry>,
}

/// The value recorded under `key` (the first entry with that key).
pub open spec fn fm_lookup(m: Seq<FmEntry>, key: Seq<char>) -> Option<FmValue>
    decreases m.len(),
{
    if m.len() == 0 {
        None
    } else if m[0].key@ == key {
        Some(m[0].value)
    } else {
        fm_lookup(m.drop_first(), key)
    }
}

/// The scalar under `key`; empty when absent or a list.
pub open spec fn fm_str(m: Seq<FmEntry>, key: Seq<char>) -> Seq<char> {
    match fm_lookup(m, key) {
        Some(FmValue::Text(s)) => s@,
        _ => seq![],
    }
}

/// The strings among `items`, in order.
pub open spec fn texts(items: Seq<FmValue>) -> Seq<Seq<char>>
    decreases items.len(),
{
    if items.len() == 0 {
        seq![]
    } else {
        match items.last() {
            FmValue::Text(s) => texts(items.drop_last()).push(s@),
            _ => texts(items.drop_last()),
        }
    }
}

/// The strings of the sequence under `key`; empty when absent or not a
/// sequence.
pub open spec fn fm_list(m: Seq<FmEntry>, key: Seq<char>) -> Seq<Seq<char>> {
    match fm_lookup(m, key) {
        Some(FmValue::Sequence(v)) => texts(v@),
        _ => seq![],
    }
}

/// The strings among `items`, in order.
pub fn text_items(items: &Vec<FmValue>) -> (r: Vec<String>)
    ensures
        strs(r@) == texts(items@),
{
    let mut r: Vec<String> = Vec::new();
    let mut i: usize = 0;
    while i < items.len()
        invariant
            i <= items.len(),
            strs(r@) == texts(items@.take(i as int)),
        decreases items.len() - i,
    {
        assert(items@.take(i + 1).drop_last() =~= items@.take(i as int));
        assert(items@.take(i + 1).last() == items@[i as int]);
        match &items[i] {
            FmValue::Text(s) => {
                let ghost before = r@;
                r.push(s.clone());
                assert(strs(r@) =~= strs(before).push(s@));
            },
            _ => {},
        }
        i = i + 1;
    }
    assert(items@.take(items.len() as int) =~= items@);
    r
}

pub fn find_entry(m: &Vec<FmEntry>, key: &str) -> (r: Option<usize>)
    ensures
        match r {
            Some(i) => i < m@.len() && fm_lookup(m@, key@) == Some(m@[i as int].value),
            None => fm_lookup(m@, key@).is_none(),
        },
{
    let mut i: usize = 0;
    assert(m@.skip(0) =~= m@);
    while i < m.len()
        invariant
            i <= m.len(),
            fm_lookup(m@, key@) == fm_lookup(m@.skip(i as int), key@),
        decreases m.len() - i,
    {
        assert(m@.skip(i as int)[0] == m@[i as int]);
        assert(m@.skip(i as int).drop_first() =~= m@.skip(i + 1));
        if str_eq(m[i].key.as_str(), key) {
            return Some(i);
        }
        i = i + 1;
    }
    assert(m@.skip(i as int).len() == 0);
    None
}

/// The scalar under `key`, or empty.
pub fn map_str(m: &Vec<FmEntry>, key: &str) -> (r: String)
    ensures
        r@ == fm_str(m@, key@),
{
    assert(m@.skip(0) =~= m@);
    match find_entry(m, key) {
        Some(i) => match &m[i].value {
            FmValue::Text(s) => s.clone(),
            _ => String::new(),
        },
        None => String::new(),
    }
}

/// The list under `key`, or empty.
pub fn map_list(m: &Vec<FmEntry>, key: &str) -> (r: Vec<String>)
    ensures
        strs(r@) == fm_list(m@, key@),
{
    assert(m@.skip(0) =~= m@);
    match find_entry(m, key) {
        Some(i) => match &m[i].value {
            FmValue::Sequence(v) => text_items(v),
            _ => {
                let r: Vec<String> = Vec::new();
                assert(strs(r@) =~= Seq::<Seq<char>>::empty());
                r
            },
        },
        None => {
            let r: Vec<String> = Vec::new();
            assert(strs(r@) =~= Seq::<Seq<char>>::empty());
            r
        },
    }
}

/// A string option as plain values.
pub open spec fn opt_view(o: Option<String>) -> Option<Seq<char>> {
    match o {
        Some(s) => Some(s@),
        None => None,
    }
}

/// Trimmed, and absent when that leaves nothing.
pub open spec fn non_empty(s: Seq<char>) -> Option<Seq<char>> {
    if trim_ws(s).len() == 0 {
        None
    } else {
        Some(trim_ws(s))
    }
}

/// Trimmed, and absent when that leaves nothing or the word `none`.
pub open spec fn opt_word(s: Seq<char>) -> Option<Seq<char>> {
    if trim_ws(s).len() == 0 || word_key(s) == "none"@ {
        None
    } else {
        Some(trim_ws(s))
    }
}

pub fn non_empty_of(s: &str) -> (r: Option<String>)
    ensures
        opt_view(r) == non_empty(s@),
{
    let t = trim_vec(&chars_of(s));
    if t.len() == 0 {
        None
    } else {
        Some(string_of(t.as_slice()))
    }
}

pub fn opt_word_of(s: &str) -> (r: Option<String>)
    ensures
        opt_view(r) == opt_word(s@),
{
    let t = trim_vec(&chars_of(s));
    let k = word_key_of(s);
    if t.len() == 0 || is_lit(&k, "none") {
        None
    } else {
        Some(string_of(t.as_slice()))
    }
}

/// The pipeline half of a ticket's frontmatter.
#[derive(Debug, Clone, PartialEq, Eq)]
pub struct TicketFields {
    pub pipeline: Option<String>,
    pub model: Option<String>,
    pub agent: Option<String>,
    /// Path globs: the file boundary a lane's agent works inside.
    pub scope: Vec<String>,
    /// The command that proves the lane's work; Ken never runs it.
    pub verify: Option<String>,
    pub bounces: u32,
    pub return_lane: Option<String>,
    /// Ticket ids, never paths.
    pub blocked_by: Vec<String>,
    pub block_reason: Option<String>,
    pub blocked_at: Option<String>,
    pub parent: Option<String>,
    pub spawned_by: Option<String>,
    pub origin: Option<String>,
    pub projects: Vec<String>,
    pub target: Target,
    pub target_raw: String,
}

/// What `ticket_fields` reads off the frontmatter map `m`.
pub open spec fn fields_of(m: Seq<FmEntry>, f: TicketFields) -> bool {
    &&& opt_view(f.pipeline) == non_empty(fm_str(m, "pipeline"@))
    &&& opt_view(f.model) == non_empty(fm_str(m, "model"@))
    &&& opt_view(f.agent) == opt_word(fm_str(m, "agent"@))
    &&& strs(f.scope@) == fm_list(m, "scope"@)
    &&& opt_view(f.verify) == non_empty(fm_str(m, "verify"@))
    &&& f.bounces == match parse_u32_spec(trim_ws(fm_str(m, "bounces"@))) {
        Some(n) => n,
        None => 0u32,
    }
    &&& opt_view(f.return_lane) == non_empty(fm_str(m, "return_lane"@))
    &&& strs(f.blocked_by@) == fm_list(m, "blocked_by"@)
    &&& opt_view(f.block_reason) == non_empty(fm_str(m, "block_reason"@))
    &&& opt_view(f.blocked_at) == non_empty(fm_str(m, "blocked_at"@))
    &&& opt_view(f.parent) == non_empty(fm_str(m, "parent"@))
    &&& opt_view(f.spawned_by) == non_empty(fm_str(m, "spawned_by"@))
    &&& opt_view(f.origin) == non_empty(fm_str(m, "origin"@))
    &&& strs(f.projects@) == fm_list(m, "projects"@)
    &&& f.target_raw@ == trim_ws(fm_str(m, "target"@))
    &&& f.target == match Target::from_word(word_key(f.target_raw@)) {
        Some(t) => t,
        None => Target::Walkthrough,
    }
}

/// Read the pipeline keys off a parsed ticket.
pub fn ticket_fields(task: &Task) -> (f: TicketFields)
    ensures
        fields_of(task.extra@, f),
{
    let m = &task.extra;
    let target_raw = string_of(trim_vec(&chars_of(map_str(m, "target").as_str())).as_slice());
    let bounces_text = trim_vec(&chars_of(map_str(m, "bounces").as_str()));
    let bounces = match parse_u32(&bounces_text) {
        Some(n) => n,
        None => 0,
    };
    let target = match Target::parse(target_raw.as_str()) {
        Some(t) => t,
        None => Target::Walkthrough,
    };
    TicketFields {
        pipeline: non_empty_of(map_str(m, "pipeline").as_str()),
        model: non_empty_of(map_str(m, "model").as_str()),
        agent: opt_word_of(map_str(m, "agent").as_str()),
        scope: map_list(m, "scope"),
        verify: non_empty_of(map_str(m, "verify").as_str()),
        bounces,
        return_lane: non_empty_of(map_str(m, "return_lane").as_str()),
        blocked_by: map_list(m, "blocked_by"),
        block_reason: non_empty_of(map_str(m, "block_reason").as_str()),
        blocked_at: non_empty_of(map_str(m, "blocked_at").as_str()),
        parent: non_empty_of(map_str(m, "parent").as_str()),
        spawned_by: non_empty_of(map_str(m, "spawned_by").as_str()),
        origin: non_empty_of(map_str(m, "origin").as_str()),
        projects: map_list(m, "projects"),
        target,
        target_raw,
    }
}

/// The ticket's `pipeline:` id, or `None` for a classic ticket.
pub fn ticket_pipeline(task: &Task) -> (r: Option<String>)
    ensures
        opt_view(r) == non_empty(fm_str(task.extra@, "pipeline"@)),
{
    non_empty_of(map_str(&task.extra, "pipeline").as_str())
}

/// The retry-cap escalation's `block_reason` prefix.
pub const RETRY_CAP_REASON: &'static str = "exceeded retry cap";

/// A retry-cap escalation, recognised by its reason's prefix (trimmed,
/// case-insensitive).
pub open spec fn retry_cap_reason(reason: Seq<char>) -> bool {
    has_prefix(word_key(reason), RETRY_CAP_REASON@)
}

pub fn is_retry_cap_reason(reason: &str) -> (r: bool)
    ensures
        r == retry_cap_reason(reason@),
{
    let k = word_key_of(reason);
    let p = chars_of(RETRY_CAP_REASON);
    starts_with(&k, &p)
}

/// The ticket carries block evidence in its own frontmatter: a blocker
/// or a reason.
pub open spec fn block_evidence(m: Seq<FmEntry>) -> bool {
    fm_list(m, "blocked_by"@).len() > 0 || non_empty(fm_str(m, "block_reason"@)).is_some()
}

pub fn has_block_evidence(task: &Task) -> (r: bool)
    ensures
        r == block_evidence(task.extra@),
{
    let f = ticket_fields(task);
    f.blocked_by.len() > 0 || f.block_reason.is_some()
}

/// The board's block-state filter.
#[derive(Debug, Clone, PartialEq, Eq)]
pub enum BlockedFilter {
    Any,
    Blocked,
    NotBlocked,
    /// Blocked by this ticket (compared trimmed and case-insensitively).
    By(String),
    /// Was blocked, is not any more, and still remembers where it goes
    /// home to.
    NewlyUnblocked,
}

/// `id` is among the ticket's blockers (trimmed, case-insensitively).
pub open spec fn listed_blocker(m: Seq<FmEntry>, id: Seq<char>) -> bool {
    exists|i: int|
        0 <= i < fm_list(m, "blocked_by"@).len() && #[trigger] eq_ci(fm_list(m, "blocked_by"@)[i], id)
}

pub open spec fn filter_matches(m: Seq<FmEntry>, filter: BlockedFilter) -> bool {
    match filter {
        BlockedFilter::Any => true,
        BlockedFilter::Blocked => block_evidence(m),
        BlockedFilter::NotBlocked => !block_evidence(m),
        BlockedFilter::By(id) => listed_blocker(m, id@),
        BlockedFilter::NewlyUnblocked => !block_evidence(m) && non_empty(
            fm_str(m, "return_lane"@),
        ).is_some(),
    }
}

/// Evaluate a block-state filter against one ticket.
pub fn matches_block_filter(task: &Task, filter: &BlockedFilter) -> (r: bool)
    ensures
        r == filter_matches(task.extra@, *filter),
{
    let f = ticket_fields(task);
    let blocked = f.blocked_by.len() > 0 || f.block_reason.is_some();
    match filter {
        BlockedFilter::Any => true,
        BlockedFilter::Blocked => blocked,
        BlockedFilter::NotBlocked => !blocked,
        BlockedFilter::By(id) => {
            let mut i: usize = 0;
            while i < f.blocked_by.len()
                invariant
                    i <= f.blocked_by.len(),
                    *filter == BlockedFilter::By(*id),
                    strs(f.blocked_by@) == fm_list(task.extra@, "blocked_by"@),
                    forall|j: int| 0 <= j < i ==> !#[trigger] eq_ci(strs(f.blocked_by@)[j], id@),
                decreases f.blocked_by.len() - i,
            {
                if eq_ci_str(f.blocked_by[i].as_str(), id.as_str()) {
                    assert(strs(f.blocked_by@)[i as int] == f.blocked_by@[i as int]@);
                    assert(eq_ci(fm_list(task.extra@, "blocked_by"@)[i as int], id@));
                    assert(*filter == BlockedFilter::By(*id));
                    assert(strs(f.blocked_by@).len() == f.blocked_by@.len());
                    assert(0 <= i < fm_list(task.extra@, "blocked_by"@).len());
                    let ghost fl = fm_list(task.extra@, "blocked_by"@);
                    assert(eq_ci(fl[i as int], id@));
                    assert(listed_blocker(task.extra@, id@));
                    return true;
                }
                i = i + 1;
            }
            false
        },
        BlockedFilter::NewlyUnblocked => !blocked && f.return_lane.is_some(),
    }
}

impl BlockGraph {
    /// The graph of every ticket on the board that records blockers.
    pub fn from_tasks(tasks: &[Task]) -> (g: Self)
        ensures
            g@ == board_graph(tasks@),
            forall|t: Seq<char>| #[trigger] g.blockers_spec(t) == board_blockers(tasks@, t),
    {
        let mut g = BlockGraph::new();
        assert(g@ =~= board_graph(tasks@.take(0)));
        let mut i: usize = 0;
        while i < tasks.len()
            invariant
                i <= tasks.len(),
                g@ == board_graph(tasks@.take(i as int)),
                forall|t: Seq<char>| #[trigger] g.blockers_spec(t) == board_blockers(tasks@.take(i as int), t),
            decreases tasks.len() - i,
        {
            let deps = map_list(&tasks[i].extra, "blocked_by");
            let ghost before = tasks@.take(i as int);
            if deps.len() > 0 {
                g.insert(tasks[i].id.as_str(), deps.as_slice());
            }
            proof {
                assert(tasks@.take(i + 1).drop_last() =~= before);
                assert(tasks@.take(i + 1).last() == tasks@[i as int]);
            }
            i = i + 1;
        }
        assert(tasks@.take(tasks.len() as int) =~= tasks@);
        g
    }
}

/// The blocker graph the board records, built ticket by ticket: each
/// ticket that lists blockers replaces any earlier entry for its identity.
pub open spec fn board_graph(tasks: Seq<Task>) -> GraphView
    decreases tasks.len(),
{
    if tasks.len() == 0 {
        seq![]
    } else {
        let g = board_graph(tasks.drop_last());
        let last = tasks.last();
        if fm_list(last.extra@, "blocked_by"@).len() > 0 {
            insert_view(g, norm(last.id@), fm_list(last.extra@, "blocked_by"@))
        } else {
            g
        }
    }
}

/// The blockers the board records for ticket `t`: those of the last
/// ticket with `t`'s identity that lists any.
pub open spec fn board_blockers(tasks: Seq<Task>, t: Seq<char>) -> Seq<Seq<char>>
    decreases tasks.len(),
{
    if tasks.len() == 0 {
        seq![]
    } else {
        let last = tasks.last();
        if fm_list(last.extra@, "blocked_by"@).len() > 0 && crate::pipeline::graph::norm(last.id@)
            == crate::pipeline::graph::norm(t) {
            fm_list(last.extra@, "blocked_by"@)
        } else {
            board_blockers(tasks.drop_last(), t)
        }
    }
}

} // verus!
