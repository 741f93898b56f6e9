//! The dependency graph over blocked tickets, write-time cycle detection,
//! and the root-blocker walk the digest shows.
use vstd::prelude::*;
use crate::text::{
    chars_of, lower_c, lower_s, push_all, push_str, string_of, trim_ws, trim_vec, trim_end_ws,
    trim_start_ws, upper_c, upper_s, upper_vec, vec_eq, eq_ci, eq_ci_vec, eq_ci_str, is_ws,
};

verus! {

// ---------------------------------------------------------------------
// Identity normalisation
// ---------------------------------------------------------------------

/// A ticket id's identity: trimmed, ASCII upper-cased.
pub open spec fn norm(s: Seq<char>) -> Seq<char> {
    upper_s(trim_ws(s))
}

pub fn norm_vec(v: &Vec<char>) -> (r: Vec<char>)
    ensures
        r@ == norm(v@),
{
    let t = trim_vec(v);
    upper_vec(&t)
}

pub fn norm_str(s: &str) -> (r: Vec<char>)
    ensures
        r@ == norm(s@),
{
    let v = chars_of(s);
    norm_vec(&v)
}

pub open spec fn strs(v: Seq<String>) -> Seq<Seq<char>> {
    v.map_values(|s: String| s@)
}

pub fn clone_strings(v: &Vec<String>) -> (r: Vec<String>)
    ensures
        strs(r@) == strs(v@),
{
    slice_strings(v.as_slice())
}

pub fn slice_strings(v: &[String]) -> (r: Vec<String>)
    ensures
        strs(r@) == strs(v@),
{
    let mut r: Vec<String> = Vec::new();
    let mut i: usize = 0;
    while i < v.len()
        invariant
            i <= v.len(),
            r@.len() == i,
            forall|k: int| 0 <= k < i ==> #[trigger] r@[k]@ == v@[k]@,
        decreases v.len() - i,
    {
        let c = v[i].clone();
        r.push(c);
        i = i + 1;
    }
    assert(strs(r@) =~= strs(v@));
    r
}

// ---- normalisation lemmas ----

pub proof fn lemma_trim_end_fixed(s: Seq<char>)
    requires
        s.len() == 0 || !is_ws(s.last()),
    ensures
        trim_end_ws(s) == s,
{
}

pub proof fn lemma_trim_start_is_suffix(s: Seq<char>)
    ensures
        exists|n: int| 0 <= n <= s.len() && trim_start_ws(s) == s.skip(n),
    decreases s.len(),
{
    if s.len() > 0 && is_ws(s[0]) {
        lemma_trim_start_is_suffix(s.drop_first());
        let n = choose|n: int|
            0 <= n <= s.drop_first().len() && trim_start_ws(s.drop_first()) == s.drop_first().skip(
                n,
            );
        assert(s.drop_first().skip(n) =~= s.skip(n + 1));
    } else {
        assert(s.skip(0) =~= s);
    }
}

pub proof fn lemma_trim_start_first(s: Seq<char>)
    ensures
        trim_start_ws(s).len() == 0 || !is_ws(trim_start_ws(s)[0]),
    decreases s.len(),
{
    if s.len() > 0 && is_ws(s[0]) {
        lemma_trim_start_first(s.drop_first());
    }
}

pub proof fn lemma_trim_end_last(s: Seq<char>)
    ensures
        trim_end_ws(s).len() == 0 || !is_ws(trim_end_ws(s).last()),
    decreases s.len(),
{
    if s.len() > 0 && is_ws(s.last()) {
        lemma_trim_end_last(s.drop_last());
    }
}

pub proof fn lemma_trim_start_fixed(s: Seq<char>)
    requires
        s.len() == 0 || !is_ws(s[0]),
    ensures
        trim_start_ws(s) == s,
{
}

/// `trim` is idempotent.
pub proof fn lemma_trim_idem(s: Seq<char>)
    ensures
        trim_ws(trim_ws(s)) == trim_ws(s),
{
    let e = trim_end_ws(s);
    let t = trim_start_ws(e);
    lemma_trim_end_last(s);
    lemma_trim_start_is_suffix(e);
    lemma_trim_start_first(e);
    let n = choose|n: int| 0 <= n <= e.len() && trim_start_ws(e) == e.skip(n);
    if t.len() > 0 {
        assert(t.last() == e.last());
    }
    lemma_trim_end_fixed(t);
    lemma_trim_start_fixed(t);
}

/// `norm(trim(s)) == norm(s)`.
pub proof fn lemma_norm_trim(s: Seq<char>)
    ensures
        norm(trim_ws(s)) == norm(s),
{
    lemma_trim_idem(s);
}

proof fn lemma_case_char(c: char, d: char)
    ensures
        (lower_c(c) == lower_c(d)) == (upper_c(c) == upper_c(d)),
{
}

/// Case-insensitive equality of trimmed ids is equality of their norms.
pub proof fn lemma_eq_ci_norm(a: Seq<char>, b: Seq<char>)
    ensures
        eq_ci(a, b) == (norm(a) == norm(b)),
{
    let ta = trim_ws(a);
    let tb = trim_ws(b);
    let la = lower_s(ta);
    let lb = lower_s(tb);
    let ua = upper_s(ta);
    let ub = upper_s(tb);
    assert(la.len() == ta.len() && ua.len() == ta.len());
    assert(lb.len() == tb.len() && ub.len() == tb.len());
    if la == lb {
        assert forall|i: int| 0 <= i < ta.len() implies ua[i] == ub[i] by {
            assert(la[i] == lower_c(ta[i]));
            assert(lb[i] == lower_c(tb[i]));
            assert(ua[i] == upper_c(ta[i]));
            assert(ub[i] == upper_c(tb[i]));
            lemma_case_char(ta[i], tb[i]);
        }
        assert(ua =~= ub);
    }
    if ua == ub {
        assert forall|i: int| 0 <= i < ta.len() implies la[i] == lb[i] by {
            assert(la[i] == lower_c(ta[i]));
            assert(lb[i] == lower_c(tb[i]));
            assert(ua[i] == upper_c(ta[i]));
            assert(ub[i] == upper_c(tb[i]));
            lemma_case_char(ta[i], tb[i]);
        }
        assert(la =~= lb);
    }
}

// ---------------------------------------------------------------------
// The graph
// ---------------------------------------------------------------------

/// Ticket → the tickets it is blocked by. Only blocked tickets have
/// entries.
#[derive(Debug, Clone, PartialEq, Eq)]
pub struct BlockGraph {
    edges: Vec<(String, Vec<String>)>,
}

pub type GraphView = Seq<(Seq<char>, Seq<Seq<char>>)>;

/// The blocker list stored under `key` (first entry wins), empty when
/// there is none.
pub open spec fn lookup(g: GraphView, key: Seq<char>) -> Seq<Seq<char>>
    decreases g.len(),
{
    if g.len() == 0 {
        seq![]
    } else if g[0].0 == key {
        g[0].1
    } else {
        lookup(g.drop_first(), key)
    }
}

impl View for BlockGraph {
    type V = GraphView;

    closed spec fn view(&self) -> GraphView {
        self.edges@.map_values(|e: (String, Vec<String>)| (e.0@, strs(e.1@)))
    }
}

/// The raw blocker strings recorded for the (already normalised) node `x`.
pub open spec fn succ(g: GraphView, x: Seq<char>) -> Seq<Seq<char>> {
    lookup(g, x)
}

/// `y` is a direct blocker of node `x`.
pub open spec fn edge(g: GraphView, x: Seq<char>, y: Seq<char>) -> bool {
    exists|k: int| 0 <= k < succ(g, x).len() && #[trigger] norm(succ(g, x)[k]) == y
}

/// Step `i` of `p` follows an edge.
pub open spec fn walk_step(g: GraphView, p: Seq<Seq<char>>, i: int) -> bool {
    edge(g, p[i], p[i + 1])
}

/// Step `i` of `p`, taken by identity, follows an edge.
pub open spec fn norm_step(g: GraphView, p: Seq<Seq<char>>, i: int) -> bool {
    edge(g, norm(p[i]), norm(p[i + 1]))
}

/// A walk along `edge`s.
pub open spec fn is_walk(g: GraphView, p: Seq<Seq<char>>) -> bool {
    forall|i: int| 0 <= i < p.len() - 1 ==> #[trigger] walk_step(g, p, i)
}

/// `b` can be reached from `a` in zero or more steps.
pub open spec fn reachable(g: GraphView, a: Seq<char>, b: Seq<char>) -> bool {
    exists|p: Seq<Seq<char>>| p.len() >= 1 && p[0] == a && p.last() == b && #[trigger] is_walk(g, p)
}

/// Every node `x` of `s` has all its direct blockers in `s`.
pub open spec fn closed_under(g: GraphView, x: Seq<char>, s: Seq<Seq<char>>) -> bool {
    forall|k: int| 0 <= k < succ(g, x).len() ==> s.contains(#[trigger] norm(succ(g, x)[k]))
}

proof fn lemma_lookup_first(g: GraphView, key: Seq<char>, i: int)
    requires
        0 <= i < g.len(),
        g[i].0 == key,
        forall|j: int| 0 <= j < i ==> g[j].0 != key,
    ensures
        lookup(g, key) == g[i].1,
    decreases i,
{
    if i > 0 {
        assert(g[0].0 != key);
        assert forall|j: int| 0 <= j < i - 1 implies g.drop_first()[j].0 != key by {
            assert(g.drop_first()[j] == g[j + 1]);
        }
        lemma_lookup_first(g.drop_first(), key, i - 1);
    }
}

proof fn lemma_lookup_none(g: GraphView, key: Seq<char>)
    requires
        forall|j: int| 0 <= j < g.len() ==> g[j].0 != key,
    ensures
        lookup(g, key) == Seq::<Seq<char>>::empty(),
    decreases g.len(),
{
    if g.len() > 0 {
        assert forall|j: int| 0 <= j < g.len() - 1 implies g.drop_first()[j].0 != key by {
            assert(g.drop_first()[j] == g[j + 1]);
        }
        lemma_lookup_none(g.drop_first(), key);
    }
}

proof fn lemma_lookup_update(g: GraphView, i: int, key: Seq<char>, v: Seq<Seq<char>>, x: Seq<char>)
    requires
        0 <= i < g.len(),
        g[i].0 == key,
        x != key,
    ensures
        lookup(g.update(i, (key, v)), x) == lookup(g, x),
    decreases g.len(),
{
    let g2 = g.update(i, (key, v));
    if i == 0 {
        assert(g2.drop_first() =~= g.drop_first());
    } else {
        if g[0].0 != x {
            assert(g2.drop_first() =~= g.drop_first().update(i - 1, (key, v)));
            lemma_lookup_update(g.drop_first(), i - 1, key, v, x);
        }
    }
}

proof fn lemma_lookup_push(g: GraphView, key: Seq<char>, v: Seq<Seq<char>>, x: Seq<char>)
    requires
        forall|j: int| 0 <= j < g.len() ==> g[j].0 != key,
    ensures
        lookup(g.push((key, v)), x) == if x == key {
            v
        } else {
            lookup(g, x)
        },
    decreases g.len(),
{
    let g2 = g.push((key, v));
    if g.len() == 0 {
        assert(g2[0] == (key, v));
        if x != key {
            assert(g2.drop_first() =~= Seq::<(Seq<char>, Seq<Seq<char>>)>::empty());
            assert(lookup(Seq::<(Seq<char>, Seq<Seq<char>>)>::empty(), x) == Seq::<Seq<char>>::empty());
        }
    } else {
        assert(g2[0] == g[0]);
        assert(g2.drop_first() =~= g.drop_first().push((key, v)));
        assert forall|j: int| 0 <= j < g.len() - 1 implies g.drop_first()[j].0 != key by {
            assert(g.drop_first()[j] == g[j + 1]);
        }
        if g[0].0 != x {
            lemma_lookup_push(g.drop_first(), key, v, x);
        }
    }
}

/// The first position from `i` on whose key is `k`.
pub open spec fn key_at(g: GraphView, k: Seq<char>, i: int) -> Option<int>
    decreases g.len() - i,
{
    if i < 0 || i >= g.len() {
        None
    } else if g[i].0 == k {
        Some(i)
    } else {
        key_at(g, k, i + 1)
    }
}

/// The graph after recording `v` under the normalised key `k`: the
/// existing entry replaced, or a new one appended.
pub open spec fn insert_view(g: GraphView, k: Seq<char>, v: Seq<Seq<char>>) -> GraphView {
    match key_at(g, k, 0) {
        Some(i) => g.update(i, (k, v)),
        None => g.push((k, v)),
    }
}

proof fn lemma_key_at_found(g: GraphView, k: Seq<char>, i: int, start: int)
    requires
        0 <= start <= i < g.len(),
        g[i].0 == k,
        forall|j: int| start <= j < i ==> g[j].0 != k,
    ensures
        key_at(g, k, start) == Some(i),
    decreases i - start,
{
    if start < i {
        lemma_key_at_found(g, k, i, start + 1);
    }
}

proof fn lemma_key_at_absent(g: GraphView, k: Seq<char>, start: int)
    requires
        0 <= start,
        forall|j: int| start <= j < g.len() ==> g[j].0 != k,
    ensures
        key_at(g, k, start).is_none(),
    decreases g.len() - start,
{
    if start < g.len() {
        lemma_key_at_absent(g, k, start + 1);
    }
}

impl BlockGraph {
    /// The empty graph.
    pub fn new() -> (g: Self)
        ensures
            g@.len() == 0,
            forall|t: Seq<char>| #[trigger] g.blockers_spec(t) == Seq::<Seq<char>>::empty(),
    {
        let g = BlockGraph { edges: Vec::new() };
        assert(g@ =~= Seq::<(Seq<char>, Seq<Seq<char>>)>::empty());
        g
    }

    /// The blockers recorded for ticket `t`.
    pub open spec fn blockers_spec(&self, t: Seq<char>) -> Seq<Seq<char>> {
        succ(self@, norm(t))
    }

    fn find_key(&self, key: &Vec<char>) -> (r: Option<usize>)
        ensures
            match r {
                Some(i) => i < self@.len() && self@[i as int].0 == key@ && forall|j: int|
                    0 <= j < i ==> self@[j].0 != key@,
                None => forall|j: int| 0 <= j < self@.len() ==> self@[j].0 != key@,
            },
    {
        let mut i: usize = 0;
        while i < self.edges.len()
            invariant
                i <= self.edges.len(),
                self@.len() == self.edges.len(),
                forall|j: int| 0 <= j < i ==> self@[j].0 != key@,
            decreases self.edges.len() - i,
        {
            let k = chars_of(self.edges[i].0.as_str());
            assert(self@[i as int].0 == self.edges@[i as int].0@);
            if vec_eq(&k, key) {
                return Some(i);
            }
            i = i + 1;
        }
        None
    }

    /// Record that `ticket` is blocked by `blockers`, replacing any earlier
    /// entry for the same ticket.
    pub fn insert(&mut self, ticket: &str, blockers: &[String])
        ensures
            final(self)@ == insert_view(old(self)@, norm(ticket@), strs(blockers@)),
            forall|t: Seq<char>| #[trigger]
                final(self).blockers_spec(t) == if norm(t) == norm(ticket@) {
                    strs(blockers@)
                } else {
                    old(self).blockers_spec(t)
                },
    {
        let key = norm_str(ticket);
        let list = slice_strings(blockers);
        let ghost g0 = self@;
        match self.find_key(&key) {
            Some(i) => {
                let ks = string_of(key.as_slice());
                self.edges.set(i, (ks, list));
                proof {
                    assert(self@ =~= g0.update(i as int, (key@, strs(blockers@))));
                    lemma_key_at_found(g0, key@, i as int, 0);
                    lemma_lookup_first(self@, key@, i as int);
                    assert forall|t: Seq<char>|
                        norm(t) != key@ implies #[trigger] lookup(self@, norm(t)) == lookup(
                        g0,
                        norm(t),
                    ) by {
                        lemma_lookup_update(g0, i as int, key@, strs(blockers@), norm(t));
                    }
                }
            },
            None => {
                let ks = string_of(key.as_slice());
                self.edges.push((ks, list));
                proof {
                    assert(self@ =~= g0.push((key@, strs(blockers@))));
                    lemma_key_at_absent(g0, key@, 0);
                    assert forall|t: Seq<char>| true implies #[trigger] lookup(self@, norm(t))
                        == if norm(t) == key@ {
                        strs(blockers@)
                    } else {
                        lookup(g0, norm(t))
                    } by {
                        lemma_lookup_push(g0, key@, strs(blockers@), norm(t));
                    }
                }
            },
        }
    }

    /// The blockers recorded for the already-normalised node `key`.
    fn succ_of(&self, key: &Vec<char>) -> (r: Vec<String>)
        ensures
            strs(r@) == succ(self@, key@),
    {
        match self.find_key(key) {
            Some(i) => {
                proof {
                    lemma_lookup_first(self@, key@, i as int);
                }
                clone_strings(&self.edges[i].1)
            },
            None => {
                proof {
                    lemma_lookup_none(self@, key@);
                }
                let r: Vec<String> = Vec::new();
                assert(strs(r@) =~= Seq::<Seq<char>>::empty());
                r
            },
        }
    }

    /// The tickets `ticket` is blocked by.
    pub fn blockers(&self, ticket: &str) -> (r: Vec<String>)
        ensures
            strs(r@) == self.blockers_spec(ticket@),
    {
        let key = norm_str(ticket);
        self.succ_of(&key)
    }

    /// No ticket has a recorded entry.
    pub fn is_empty(&self) -> (r: bool)
        ensures
            r == (self@.len() == 0),
    {
        self.edges.len() == 0
    }

    /// A copy with the same entries.
    pub fn duplicate(&self) -> (r: Self)
        ensures
            r@ == self@,
    {
        let mut edges: Vec<(String, Vec<String>)> = Vec::new();
        let mut i: usize = 0;
        while i < self.edges.len()
            invariant
                i <= self.edges.len(),
                edges@.map_values(|e: (String, Vec<String>)| (e.0@, strs(e.1@))) == self@.take(
                    i as int,
                ),
            decreases self.edges.len() - i,
        {
            let k = self.edges[i].0.clone();
            let v = clone_strings(&self.edges[i].1);
            let ghost e0 = edges@;
            edges.push((k, v));
            proof {
                assert(k@ == self.edges@[i as int].0@);
                assert(self@[i as int] == (self.edges@[i as int].0@, strs(self.edges@[i as int].1@)));
                assert(self@.take(i + 1) =~= self@.take(i as int).push(self@[i as int]));
                assert(edges@ == e0.push((k, v)));
            }
            i = i + 1;
            assert(edges@.map_values(|e: (String, Vec<String>)| (e.0@, strs(e.1@))) =~= self@.take(
                i as int,
            ));
        }
        assert(self@.take(self.edges.len() as int) =~= self@);
        BlockGraph { edges }
    }
}

// ---------------------------------------------------------------------
// A graph built by inserts
// ---------------------------------------------------------------------

proof fn lemma_key_at_result(g: GraphView, k: Seq<char>, start: int)
    requires
        0 <= start,
    ensures
        match key_at(g, k, start) {
            Some(i) => start <= i < g.len() && g[i].0 == k && forall|j: int| start <= j < i ==> g[j].0 != k,
            None => forall|j: int| start <= j < g.len() ==> g[j].0 != k,
        },
    decreases g.len() - start,
{
    if start < g.len() && g[start].0 != k {
        lemma_key_at_result(g, k, start + 1);
    }
}

proof fn lemma_lookup_insert_view(g: GraphView, k: Seq<char>, v: Seq<Seq<char>>, x: Seq<char>)
    ensures
        lookup(insert_view(g, k, v), x) == if x == k {
            v
        } else {
            lookup(g, x)
        },
        insert_view(g, k, v).len() >= 1,
        insert_view(g, k, v).len() >= g.len(),
{
    lemma_key_at_result(g, k, 0);
    match key_at(g, k, 0) {
        Some(i) => {
            let g2 = g.update(i, (k, v));
            if x == k {
                assert forall|j: int| 0 <= j < i implies g2[j].0 != k by {
                    assert(g2[j] == g[j]);
                }
                lemma_lookup_first(g2, k, i);
            } else {
                lemma_lookup_update(g, i, k, v, x);
            }
        },
        None => {
            lemma_lookup_push(g, k, v, x);
        },
    }
}

/// The graph view after inserting each `(ticket, blockers)` of `ops`, in
/// order, into an empty graph.
pub open spec fn graph_after(ops: Seq<(Seq<char>, Seq<Seq<char>>)>) -> GraphView
    decreases ops.len(),
{
    if ops.len() == 0 {
        seq![]
    } else {
        insert_view(graph_after(ops.drop_last()), norm(ops.last().0), ops.last().1)
    }
}

/// The blockers of the last insert in `ops` whose ticket has identity
/// `key`, empty when there is none.
pub open spec fn last_insert(ops: Seq<(Seq<char>, Seq<Seq<char>>)>, key: Seq<char>) -> Seq<Seq<char>>
    decreases ops.len(),
{
    if ops.len() == 0 {
        seq![]
    } else if norm(ops.last().0) == key {
        ops.last().1
    } else {
        last_insert(ops.drop_last(), key)
    }
}

/// After `BlockGraph::new` and the inserts `ops` in order, the blockers of
/// any ticket `t` are those of the last insert whose ticket is `t` up to
/// surrounding whitespace and ASCII case, and empty when there is none;
/// the graph is empty exactly when nothing was inserted.
pub proof fn law_blockers_after_inserts(ops: Seq<(Seq<char>, Seq<Seq<char>>)>, t: Seq<char>)
    ensures
        succ(graph_after(ops), norm(t)) == last_insert(ops, norm(t)),
        (graph_after(ops).len() == 0) == (ops.len() == 0),
    decreases ops.len(),
{
    if ops.len() > 0 {
        law_blockers_after_inserts(ops.drop_last(), t);
        lemma_lookup_insert_view(graph_after(ops.drop_last()), norm(ops.last().0), ops.last().1, norm(t));
    }
}

// ---------------------------------------------------------------------
// Finite node universe, for termination
// ---------------------------------------------------------------------

pub open spec fn norms(s: Seq<Seq<char>>) -> Seq<Seq<char>> {
    s.map_values(|x: Seq<char>| norm(x))
}

/// Every normalised blocker the graph mentions.
pub open spec fn all_nodes(g: GraphView) -> Seq<Seq<char>>
    decreases g.len(),
{
    if g.len() == 0 {
        seq![]
    } else {
        norms(g[0].1) + all_nodes(g.drop_first())
    }
}

proof fn lemma_lookup_in_all(g: GraphView, key: Seq<char>, k: int)
    requires
        0 <= k < lookup(g, key).len(),
    ensures
        all_nodes(g).contains(norm(lookup(g, key)[k])),
    decreases g.len(),
{
    if g[0].0 == key {
        assert(all_nodes(g)[k] == norms(g[0].1)[k]);
    } else {
        lemma_lookup_in_all(g.drop_first(), key, k);
        let j = choose|j: int|
            0 <= j < all_nodes(g.drop_first()).len() && all_nodes(g.drop_first())[j] == norm(
                lookup(g, key)[k],
            );
        assert(all_nodes(g)[norms(g[0].1).len() + j] == norm(lookup(g, key)[k]));
    }
}

/// How many entries of `all` are not in `seen`.
pub open spec fn unseen(all: Seq<Seq<char>>, seen: Seq<Seq<char>>) -> nat
    decreases all.len(),
{
    if all.len() == 0 {
        0
    } else {
        unseen(all.drop_last(), seen) + if seen.contains(all.last()) {
            0nat
        } else {
            1nat
        }
    }
}

proof fn lemma_unseen_mono(all: Seq<Seq<char>>, s1: Seq<Seq<char>>, s2: Seq<Seq<char>>)
    requires
        forall|x: Seq<char>| s1.contains(x) ==> s2.contains(x),
    ensures
        unseen(all, s2) <= unseen(all, s1),
    decreases all.len(),
{
    if all.len() > 0 {
        lemma_unseen_mono(all.drop_last(), s1, s2);
    }
}

proof fn lemma_unseen_strict(
    all: Seq<Seq<char>>,
    s1: Seq<Seq<char>>,
    s2: Seq<Seq<char>>,
    x: Seq<char>,
)
    requires
        forall|y: Seq<char>| s1.contains(y) ==> s2.contains(y),
        all.contains(x),
        !s1.contains(x),
        s2.contains(x),
    ensures
        unseen(all, s2) < unseen(all, s1),
    decreases all.len(),
{
    lemma_unseen_mono(all.drop_last(), s1, s2);
    if all.last() != x {
        let j = choose|j: int| 0 <= j < all.len() && all[j] == x;
        assert(all.drop_last()[j] == x);
        lemma_unseen_strict(all.drop_last(), s1, s2, x);
    }
}

// ---------------------------------------------------------------------
// Cycle detection
// ---------------------------------------------------------------------

/// The chain an offered edge would close, in walk order.
#[derive(Debug, Clone, PartialEq, Eq)]
pub struct CyclePath {
    pub path: Vec<String>,
}

/// `ext` continues a walk from node `x` and ends at node `t`.
pub open spec fn chain_from(g: GraphView, x: Seq<char>, ext: Seq<Seq<char>>, t: Seq<char>) -> bool {
    &&& ext.len() > 0
    &&& edge(g, x, norm(ext[0]))
    &&& forall|i: int| 0 <= i < ext.len() - 1 ==> #[trigger] norm_step(g, ext, i)
    &&& norm(ext.last()) == t
}

/// `p` shows that "`from` is blocked by `to`" closes a cycle: it starts
/// with the offered edge and walks back to `from`.
pub open spec fn cycle_witness(g: GraphView, from: Seq<char>, to: Seq<char>, p: Seq<Seq<char>>) -> bool {
    &&& p.len() >= 2
    &&& p[0] == trim_ws(from)
    &&& p[1] == trim_ws(to)
    &&& forall|i: int| 1 <= i < p.len() - 1 ==> #[trigger] norm_step(g, p, i)
    &&& norm(p.last()) == norm(from)
}

proof fn lemma_closure_blocks(g: GraphView, s: Seq<Seq<char>>, p: Seq<Seq<char>>)
    requires
        forall|x: Seq<char>| s.contains(x) ==> #[trigger] closed_under(g, x, s),
        p.len() >= 1,
        s.contains(p[0]),
        is_walk(g, p),
    ensures
        s.contains(p.last()),
    decreases p.len(),
{
    if p.len() > 1 {
        assert(walk_step(g, p, 0));
        let k = choose|k: int| 0 <= k < succ(g, p[0]).len() && #[trigger] norm(succ(g, p[0])[k]) == p[1];
        assert(closed_under(g, p[0], s));
        assert(s.contains(norm(succ(g, p[0])[k])));
        let q = p.drop_first();
        assert forall|i: int| 0 <= i < q.len() - 1 implies #[trigger] walk_step(g, q, i) by {
            assert(walk_step(g, p, i + 1));
            assert(q[i] == p[i + 1] && q[i + 1] == p[i + 2]);
        }
        lemma_closure_blocks(g, s, q);
    }
}

proof fn lemma_closed_mono(g: GraphView, x: Seq<char>, s1: Seq<Seq<char>>, s2: Seq<Seq<char>>)
    requires
        closed_under(g, x, s1),
        forall|y: Seq<char>| s1.contains(y) ==> s2.contains(y),
    ensures
        closed_under(g, x, s2),
{
    assert forall|k: int| 0 <= k < succ(g, x).len() implies s2.contains(#[trigger] norm(succ(g, x)[k])) by {
        assert(s1.contains(norm(succ(g, x)[k])));
    }
}

spec fn seen_view(seen: Seq<Vec<char>>) -> Seq<Seq<char>> {
    seen.map_values(|x: Vec<char>| x@)
}

fn seen_contains(seen: &Vec<Vec<char>>, x: &Vec<char>) -> (r: bool)
    ensures
        r == seen_view(seen@).contains(x@),
{
    let mut i: usize = 0;
    while i < seen.len()
        invariant
            i <= seen.len(),
            forall|j: int| 0 <= j < i ==> seen@[j]@ != x@,
        decreases seen.len() - i,
    {
        if vec_eq(&seen[i], x) {
            assert(seen_view(seen@)[i as int] == x@);
            return true;
        }
        i = i + 1;
    }
    proof {
        if seen_view(seen@).contains(x@) {
            let j = choose|j: int| 0 <= j < seen_view(seen@).len() && seen_view(seen@)[j] == x@;
            assert(seen@[j]@ == x@);
        }
    }
    false
}

/// Depth-first over `blocked_by`, looking for `target`. `seen` bounds the
/// walk, so a cycle already on disk still terminates.
fn walk(
    graph: &BlockGraph,
    current: &Vec<char>,
    target: &Vec<char>,
    path: &mut Vec<String>,
    seen: &mut Vec<Vec<char>>,
) -> (found: bool)
    requires
        seen_view(old(seen)@).contains(current@),
        !seen_view(old(seen)@).contains(target@),
    ensures
        forall|x: Seq<char>| #[trigger]
            seen_view(old(seen)@).contains(x) ==> seen_view(final(seen)@).contains(x),
        found ==> {
            &&& final(path)@.len() > old(path)@.len()
            &&& final(path)@.take(old(path)@.len() as int) == old(path)@
            &&& chain_from(
                graph@,
                current@,
                strs(final(path)@).skip(old(path)@.len() as int),
                target@,
            )
        },
        !found ==> {
            &&& final(path)@ == old(path)@
            &&& !seen_view(final(seen)@).contains(target@)
            &&& forall|x: Seq<char>| #[trigger]
                seen_view(final(seen)@).contains(x) && (!seen_view(old(seen)@).contains(x) || x
                    == current@) ==> closed_under(graph@, x, seen_view(final(seen)@))
        },
    decreases unseen(all_nodes(graph@), seen_view(old(seen)@)),
{
    let ghost g = graph@;
    let ghost all = all_nodes(g);
    let ghost seen0 = seen_view(seen@);
    let ghost path0 = path@;
    let bl = graph.succ_of(current);
    let mut i: usize = 0;
    while i < bl.len()
        invariant
            g == graph@,
            all == all_nodes(g),
            seen0 == seen_view(old(seen)@),
            path0 == old(path)@,
            strs(bl@) == succ(g, current@),
            i <= bl.len(),
            path@ == path0,
            seen0.contains(current@),
            forall|x: Seq<char>| #[trigger] seen0.contains(x) ==> seen_view(seen@).contains(x),
            !seen_view(seen@).contains(target@),
            forall|x: Seq<char>| #[trigger]
                seen_view(seen@).contains(x) && !seen0.contains(x) ==> closed_under(
                    g,
                    x,
                    seen_view(seen@),
                ),
            forall|k: int| 0 <= k < i ==> seen_view(seen@).contains(#[trigger] norm(succ(g, current@)[k])),
        decreases bl.len() - i,
    {
        let bv = chars_of(bl[i].as_str());
        let b = norm_vec(&bv);
        let tb = trim_vec(&bv);
        assert(succ(g, current@)[i as int] == bl@[i as int]@);
        let tb_s = string_of(tb.as_slice());
        path.push(tb_s);
        proof {
            lemma_norm_trim(bv@);
        }
        if vec_eq(&b, target) {
            proof {
                let ext = strs(path@).skip(path0.len() as int);
                assert(ext =~= seq![trim_ws(bv@)]);
                assert(path@.take(path0.len() as int) =~= path0);
                assert(edge(g, current@, norm(ext[0])));
            }
            return true;
        }
        let is_new = !seen_contains(seen, &b);
        if is_new {
            let ghost seen_before = seen_view(seen@);
            seen.push(b.clone());
            assert(seen_view(seen@) =~= seen_before.push(b@));
            proof {
                assert(seen_view(seen@)[seen_before.len() as int] == b@);
                assert forall|y: Seq<char>| seen0.contains(y) implies seen_view(seen@).contains(y) by {
                    assert(seen_before.contains(y));
                    let j = choose|j: int| 0 <= j < seen_before.len() && seen_before[j] == y;
                    assert(seen_view(seen@)[j] == y);
                }
                lemma_lookup_in_all(g, current@, i as int);
                lemma_unseen_strict(all, seen0, seen_view(seen@), b@);
            }
            let ghost path1 = path@;
            let ghost seen1 = seen_view(seen@);
            let found = walk(graph, &b, target, path, seen);
            if found {
                proof {
                    let ext1 = strs(path@).skip(path1.len() as int);
                    let ext = strs(path@).skip(path0.len() as int);
                    assert(path@.take(path1.len() as int) == path1);
                    assert(path1.len() == path0.len() + 1);
                    assert forall|k: int| 0 <= k < ext.len() implies ext[k] == (seq![trim_ws(bv@)] + ext1)[k] by {
                        if k == 0 {
                            assert(path@.take(path1.len() as int)[path0.len() as int] == path@[path0.len() as int]);
                            assert(path1[path0.len() as int] == tb_s);
                        } else {
                            assert(ext[k] == strs(path@)[path0.len() + k]);
                            assert(ext1[k - 1] == strs(path@)[path1.len() + k - 1]);
                        }
                    }
                    assert(ext =~= seq![trim_ws(bv@)] + ext1);
                    assert(path@.take(path0.len() as int) =~= path0) by {
                        assert(path1.take(path0.len() as int) =~= path0);
                    }
                    assert(ext[0] == trim_ws(bv@));
                    assert(edge(g, current@, norm(ext[0])));
                    assert forall|j: int| 0 <= j < ext.len() - 1 implies #[trigger] norm_step(
                        g,
                        ext,
                        j,
                    ) by {
                        if j == 0 {
                            assert(ext[1] == ext1[0]);
                        } else {
                            assert(norm_step(g, ext1, j - 1));
                            assert(ext[j] == ext1[j - 1]);
                            assert(ext[j + 1] == ext1[j]);
                        }
                    }
                    assert(ext.last() == ext1.last());
                }
                return true;
            }
            proof {
                assert(seen1[seen_before.len() as int] == b@);
                assert(seen1.contains(b@));
                assert forall|y: Seq<char>| seen_before.contains(y) implies seen_view(seen@).contains(y) by {
                    let j = choose|j: int| 0 <= j < seen_before.len() && seen_before[j] == y;
                    assert(seen1[j] == y);
                    assert(seen1.contains(y));
                }
                assert forall|x: Seq<char>| #[trigger]
                    seen_view(seen@).contains(x) && !seen0.contains(x) implies closed_under(
                    g,
                    x,
                    seen_view(seen@),
                ) by {
                    if seen1.contains(x) && x != b@ {
                        if !seen_before.contains(x) {
                            let j = choose|j: int| 0 <= j < seen1.len() && seen1[j] == x;
                            assert(j == seen_before.len() || seen_before[j] == x);
                            assert(x == b@);
                        }
                        assert(closed_under(g, x, seen_before));
                        lemma_closed_mono(g, x, seen_before, seen_view(seen@));
                    }
                }
                assert(seen_view(seen@).contains(b@));
            }
        }
        let _ = path.pop();
        assert(path@ =~= path0);
        i = i + 1;
    }
    proof {
        assert(closed_under(g, current@, seen_view(seen@)));
    }
    false
}

/// Would "`from` is blocked by `to`" close a cycle? `Err` carries the
/// whole loop, starting with the offered edge and ending where it started.
pub fn check_cycle(graph: &BlockGraph, from: &str, to: &str) -> (r: Result<(), CyclePath>)
    ensures
        r is Ok <==> !reachable(graph@, norm(to@), norm(from@)),
        r matches Err(c) ==> cycle_witness(graph@, from@, to@, strs(c.path@)),
{
    let nf = norm_str(from);
    let nt = norm_str(to);
    let fv = chars_of(from);
    let tv = chars_of(to);
    let tf = string_of(trim_vec(&fv).as_slice());
    let tt = string_of(trim_vec(&tv).as_slice());
    proof {
        lemma_norm_trim(from@);
        lemma_norm_trim(to@);
    }
    if vec_eq(&nf, &nt) {
        let mut path: Vec<String> = Vec::new();
        path.push(tf);
        path.push(tt);
        proof {
            assert(strs(path@) =~= seq![trim_ws(from@), trim_ws(to@)]);
            let p = seq![norm(to@)];
            assert(is_walk(graph@, p));
        }
        return Err(CyclePath { path });
    }
    let mut path: Vec<String> = Vec::new();
    path.push(tf);
    path.push(tt);
    let mut seen: Vec<Vec<char>> = Vec::new();
    seen.push(nt.clone());
    assert(seen_view(seen@) =~= seq![nt@]);
    assert(seen_view(seen@)[0] == nt@);
    let ghost path0 = path@;
    let ghost seen0 = seen_view(seen@);
    if walk(graph, &nt, &nf, &mut path, &mut seen) {
        proof {
            let ext = strs(path@).skip(2);
            let p = strs(path@);
            assert(path@.take(2) == path0);
            assert(p[0] == trim_ws(from@) && p[1] == trim_ws(to@)) by {
                assert(path@[0] == path0[0]);
                assert(path@[1] == path0[1]);
            }
            assert forall|i: int| 1 <= i < p.len() - 1 implies #[trigger] norm_step(
                graph@,
                p,
                i,
            ) by {
                if i == 1 {
                    assert(p[2] == ext[0]);
                } else {
                    assert(norm_step(graph@, ext, i - 2));
                    assert(p[i] == ext[i - 2]);
                    assert(p[i + 1] == ext[i - 1]);
                }
            }
            assert(p.last() == ext.last());
            // the witness also shows reachability
            let q = p.skip(1).map_values(|x: Seq<char>| norm(x));
            assert forall|i: int| 0 <= i < q.len() - 1 implies #[trigger] walk_step(graph@, q, i) by {
                assert(q[i] == norm(p[i + 1]));
                assert(q[i + 1] == norm(p[i + 2]));
                assert(norm_step(graph@, p, i + 1));
            }
            assert(is_walk(graph@, q));
            assert(q[0] == norm(to@));
            assert(q.last() == norm(from@));
        }
        return Err(CyclePath { path });
    }
    proof {
        assert forall|x: Seq<char>| seen_view(seen@).contains(x) implies #[trigger] closed_under(
            graph@,
            x,
            seen_view(seen@),
        ) by {
            if seen0.contains(x) {
                assert(x == nt@);
            }
        }
        assert(seen0.contains(nt@));
        if reachable(graph@, norm(to@), norm(from@)) {
            let p = choose|p: Seq<Seq<char>>|
                p.len() >= 1 && p[0] == norm(to@) && p.last() == norm(from@) && #[trigger] is_walk(
                    graph@,
                    p,
                );
            lemma_closure_blocks(graph@, seen_view(seen@), p);
        }
    }
    Ok(())
}

// ---------------------------------------------------------------------
// Rendering
// ---------------------------------------------------------------------

/// `parts` joined by `sep`.
pub open spec fn join(parts: Seq<Seq<char>>, sep: Seq<char>) -> Seq<char>
    decreases parts.len(),
{
    if parts.len() == 0 {
        seq![]
    } else if parts.len() == 1 {
        parts[0]
    } else {
        join(parts.drop_last(), sep) + sep + parts.last()
    }
}

pub fn join_vec(parts: &Vec<String>, sep: &str) -> (r: Vec<char>)
    ensures
        r@ == join(strs(parts@), sep@),
{
    let mut out: Vec<char> = Vec::new();
    let mut i: usize = 0;
    while i < parts.len()
        invariant
            i <= parts.len(),
            out@ == join(strs(parts@).take(i as int), sep@),
        decreases parts.len() - i,
    {
        let ghost before = out@;
        if i > 0 {
            push_str(&mut out, sep);
        }
        push_str(&mut out, parts[i].as_str());
        proof {
            let t = strs(parts@).take(i + 1);
            assert(t.drop_last() =~= strs(parts@).take(i as int));
            assert(t.last() == parts@[i as int]@);
            if i == 0 {
                assert(t =~= seq![parts@[0]@]);
            }
        }
        i = i + 1;
    }
    assert(strs(parts@).take(parts.len() as int) =~= strs(parts@));
    out
}

impl CyclePath {
    /// `A → B → C → A`.
    pub fn render(&self) -> (r: String)
        ensures
            r@ == join(strs(self.path@), " → "@),
    {
        let v = join_vec(&self.path, " → ");
        string_of(v.as_slice())
    }
}

// ---------------------------------------------------------------------
// Root blockers
// ---------------------------------------------------------------------

/// `y` is reachable from one of `ticket`'s own blockers.
pub open spec fn reach1(g: GraphView, ticket: Seq<char>, y: Seq<char>) -> bool {
    exists|k: int|
        0 <= k < succ(g, norm(ticket)).len() && #[trigger] reachable(
            g,
            norm(succ(g, norm(ticket))[k]),
            y,
        )
}

/// A ticket with no blockers of its own.
pub open spec fn is_leaf(g: GraphView, x: Seq<char>) -> bool {
    succ(g, x).len() == 0
}


/// Some entry of `out` names node `y`.
pub open spec fn in_out(out: Seq<String>, y: Seq<char>) -> bool {
    exists|i: int| 0 <= i < out.len() && #[trigger] norm(out[i]@) == y
}

spec fn on_stack(st: Seq<String>, y: Seq<char>) -> bool {
    exists|j: int| 0 <= j < st.len() && #[trigger] norm(st[j]@) == y
}

spec fn covered(seen: Seq<Seq<char>>, st: Seq<String>, y: Seq<char>) -> bool {
    seen.contains(y) || on_stack(st, y)
}

proof fn lemma_reach_refl(g: GraphView, a: Seq<char>)
    ensures
        reachable(g, a, a),
{
    let p = seq![a];
    assert(is_walk(g, p));
}

proof fn lemma_reach_step(g: GraphView, a: Seq<char>, x: Seq<char>, y: Seq<char>)
    requires
        reachable(g, a, x),
        edge(g, x, y),
    ensures
        reachable(g, a, y),
{
    let p = choose|p: Seq<Seq<char>>| p.len() >= 1 && p[0] == a && p.last() == x && #[trigger] is_walk(g, p);
    let q = p.push(y);
    assert forall|i: int| 0 <= i < q.len() - 1 implies #[trigger] walk_step(g, q, i) by {
        if i < p.len() - 1 {
            assert(walk_step(g, p, i));
        }
    }
    assert(q[0] == a);
    assert(is_walk(g, q));
}

proof fn lemma_reach1_step(g: GraphView, t: Seq<char>, x: Seq<char>, y: Seq<char>)
    requires
        reach1(g, t, x),
        edge(g, x, y),
    ensures
        reach1(g, t, y),
{
    let k = choose|k: int|
        0 <= k < succ(g, norm(t)).len() && #[trigger] reachable(g, norm(succ(g, norm(t))[k]), x);
    lemma_reach_step(g, norm(succ(g, norm(t))[k]), x, y);
}

proof fn lemma_cover_after(
    seen0: Seq<Seq<char>>,
    seen1: Seq<Seq<char>>,
    st0: Seq<String>,
    st1: Seq<String>,
    y: Seq<char>,
)
    requires
        st0.len() > 0,
        st1.len() >= st0.len() - 1,
        forall|j: int| 0 <= j < st0.len() - 1 ==> st1[j] == st0[j],
        forall|x: Seq<char>| seen0.contains(x) ==> seen1.contains(x),
        seen1.contains(norm(st0.last()@)),
        covered(seen0, st0, y),
    ensures
        covered(seen1, st1, y),
{
    if !seen0.contains(y) {
        let j = choose|j: int| 0 <= j < st0.len() && #[trigger] norm(st0[j]@) == y;
        if j < st0.len() - 1 {
            assert(norm(st1[j]@) == y);
        }
    }
}

/// Some entry of `out` names node `y`.
pub open spec fn has_id(out: Seq<Seq<char>>, y: Seq<char>) -> bool {
    exists|i: int| 0 <= i < out.len() && #[trigger] norm(out[i]) == y
}

pub proof fn lemma_unseen_push(all: Seq<Seq<char>>, seen: Seq<Seq<char>>, x: Seq<char>)
    requires
        all.contains(x),
        !seen.contains(x),
    ensures
        unseen(all, seen.push(x)) < unseen(all, seen),
{
    assert forall|y: Seq<char>| seen.contains(y) implies seen.push(x).contains(y) by {
        let j = choose|j: int| 0 <= j < seen.len() && seen[j] == y;
        assert(seen.push(x)[j] == y);
    }
    assert(seen.push(x)[seen.len() as int] == x);
    lemma_unseen_strict(all, seen, seen.push(x), x);
}

/// The depth-first walk behind [`root_blockers`], as a function of its
/// state: pop the top of `stack`; skip it when its identity is in `seen`;
/// otherwise mark it seen, and either record it in `out` (a leaf not yet
/// recorded by identity, kept as written) or push its blockers in their
/// recorded order.
pub open spec fn dfs_leaves(
    g: GraphView,
    stack: Seq<Seq<char>>,
    seen: Seq<Seq<char>>,
    out: Seq<Seq<char>>,
) -> Seq<Seq<char>>
    decreases unseen(all_nodes(g), seen), stack.len(),
    when forall|j: int| 0 <= j < stack.len() ==> all_nodes(g).contains(norm(#[trigger] stack[j]))
{
    if stack.len() == 0 {
        out
    } else {
        let cur = stack.last();
        let rest = stack.drop_last();
        let key = norm(cur);
        if seen.contains(key) {
            dfs_leaves(g, rest, seen, out)
        } else {
            proof {
                assert(stack[stack.len() - 1] == cur);
                lemma_unseen_push(all_nodes(g), seen, key);
            }
            if succ(g, key).len() == 0 {
                dfs_leaves(g, rest, seen.push(key), if has_id(out, key) { out } else { out.push(cur) })
            } else {
                dfs_leaves(g, rest + succ(g, key), seen.push(key), out)
            }
        }
    }
}

/// The root blockers of `ticket`: the walk started from its own blockers,
/// with nothing seen and nothing recorded.
pub open spec fn root_leaves(g: GraphView, ticket: Seq<char>) -> Seq<Seq<char>> {
    dfs_leaves(g, succ(g, norm(ticket)), seq![], seq![])
}

proof fn lemma_in_out_has_id(out: Seq<String>, y: Seq<char>)
    ensures
        in_out(out, y) == has_id(strs(out), y),
{
    if in_out(out, y) {
        let i = choose|i: int| 0 <= i < out.len() && #[trigger] norm(out[i]@) == y;
        assert(norm(strs(out)[i]) == y);
    }
    if has_id(strs(out), y) {
        let i = choose|i: int| 0 <= i < strs(out).len() && #[trigger] norm(strs(out)[i]) == y;
        assert(norm(out[i]@) == y);
    }
}

proof fn lemma_dfs_step(g: GraphView, st: Seq<String>, seen: Seq<Seq<char>>, out: Seq<Seq<char>>)
    requires
        st.len() > 0,
        forall|j: int| 0 <= j < st.len() ==> all_nodes(g).contains(norm(#[trigger] st[j]@)),
    ensures
        dfs_leaves(g, strs(st), seen, out) == ({
            let cur = st.last()@;
            let key = norm(cur);
            let rest = strs(st.drop_last());
            if seen.contains(key) {
                dfs_leaves(g, rest, seen, out)
            } else if succ(g, key).len() == 0 {
                dfs_leaves(g, rest, seen.push(key), if has_id(out, key) { out } else { out.push(cur) })
            } else {
                dfs_leaves(g, rest + succ(g, key), seen.push(key), out)
            }
        }),
{
    let ss = strs(st);
    assert forall|j: int| 0 <= j < ss.len() implies all_nodes(g).contains(norm(#[trigger] ss[j])) by {
        assert(ss[j] == st[j]@);
    }
    assert(ss.drop_last() =~= strs(st.drop_last()));
    assert(ss.last() == st.last()@);
    let key = norm(ss.last());
    if seen.contains(key) {
        assert(dfs_leaves(g, ss, seen, out) == dfs_leaves(g, ss.drop_last(), seen, out));
    } else if succ(g, key).len() == 0 {
        assert(dfs_leaves(g, ss, seen, out) == dfs_leaves(g, ss.drop_last(), seen.push(key), if has_id(out, key) { out } else { out.push(ss.last()) }));
    } else {
        let st2 = ss.drop_last() + succ(g, key);
        assert forall|j: int| 0 <= j < st2.len() implies all_nodes(g).contains(norm(#[trigger] st2[j])) by {
            if j >= ss.len() - 1 {
                lemma_lookup_in_all(g, key, j - (ss.len() - 1));
            }
        }
        assert(dfs_leaves(g, ss, seen, out) == dfs_leaves(g, st2, seen.push(key), out));
    }
}

fn out_has(out: &Vec<String>, c: &str) -> (r: bool)
    ensures
        r == in_out(out@, norm(c@)),
{
    let mut i: usize = 0;
    while i < out.len()
        invariant
            i <= out.len(),
            forall|j: int| 0 <= j < i ==> norm(#[trigger] out@[j]@) != norm(c@),
        decreases out.len() - i,
    {
        proof {
            lemma_eq_ci_norm(out@[i as int]@, c@);
        }
        if eq_ci_str(out[i].as_str(), c) {
            return true;
        }
        i = i + 1;
    }
    false
}

/// The tickets at the far end of `ticket_id`'s blocker chains: every node
/// with no blockers of its own that some direct blocker leads to, each
/// once by identity, in the order the depth-first walk meets them.
pub fn root_blockers(graph: &BlockGraph, ticket_id: &str) -> (out: Vec<String>)
    ensures
        forall|i: int|
            0 <= i < out@.len() ==> is_leaf(graph@, norm(#[trigger] out@[i]@)) && reach1(
                graph@,
                ticket_id@,
                norm(out@[i]@),
            ),
        forall|i: int, j: int| 0 <= i < j < out@.len() ==> norm(#[trigger] out@[i]@) != norm(#[trigger] out@[j]@),
        forall|y: Seq<char>|
            is_leaf(graph@, y) && #[trigger] reach1(graph@, ticket_id@, y) ==> in_out(out@, y),
        strs(out@) == root_leaves(graph@, ticket_id@),
{
    let ghost g = graph@;
    let ghost all = all_nodes(g);
    let ghost t = ticket_id@;
    let ghost s0 = succ(g, norm(t));
    let mut out: Vec<String> = Vec::new();
    let mut seen: Vec<Vec<char>> = Vec::new();
    let mut stack = graph.blockers(ticket_id);
    proof {
        assert forall|j: int| 0 <= j < stack@.len() implies all.contains(norm(#[trigger] stack@[j]@))
            && reach1(g, t, norm(stack@[j]@)) by {
            assert(stack@[j]@ == s0[j]);
            lemma_lookup_in_all(g, norm(t), j);
            lemma_reach_refl(g, norm(s0[j]));
        }
        assert forall|k: int| 0 <= k < s0.len() implies covered(seen_view(seen@), stack@, #[trigger] norm(s0[k])) by {
            assert(norm(stack@[k]@) == norm(s0[k]));
        }
        assert(strs(stack@) =~= s0);
        assert(seen_view(seen@) =~= seq![]);
        assert(strs(out@) =~= seq![]);
    }
    while stack.len() > 0
        invariant
            g == graph@,
            all == all_nodes(g),
            t == ticket_id@,
            s0 == succ(g, norm(t)),
            forall|j: int|
                0 <= j < stack@.len() ==> all.contains(norm(#[trigger] stack@[j]@)) && reach1(
                    g,
                    t,
                    norm(stack@[j]@),
                ),
            forall|i: int|
                0 <= i < out@.len() ==> is_leaf(g, norm(#[trigger] out@[i]@)) && reach1(
                    g,
                    t,
                    norm(out@[i]@),
                ),
            forall|i: int, j: int| 0 <= i < j < out@.len() ==> norm(#[trigger] out@[i]@) != norm(#[trigger] out@[j]@),
            forall|x: Seq<char>| #[trigger]
                seen_view(seen@).contains(x) ==> (is_leaf(g, x) ==> in_out(out@, x)) && forall|k: int|
                    0 <= k < succ(g, x).len() ==> covered(
                        seen_view(seen@),
                        stack@,
                        #[trigger] norm(succ(g, x)[k]),
                    ),
            forall|k: int| 0 <= k < s0.len() ==> covered(seen_view(seen@), stack@, #[trigger] norm(s0[k])),
            dfs_leaves(g, strs(stack@), seen_view(seen@), strs(out@)) == root_leaves(g, t),
        decreases unseen(all, seen_view(seen@)), stack.len(),
    {
        let ghost st0 = stack@;
        let ghost sv0 = seen_view(seen@);
        let ghost out0 = out@;
        proof {
            lemma_dfs_step(g, st0, sv0, strs(out0));
            lemma_in_out_has_id(out0, norm(st0.last()@));
        }
        let current = stack.pop().unwrap();
        let ghost st1 = stack@;
        assert(current == st0.last());
        assert(st1 =~= st0.drop_last());
        let cur_chars = chars_of(current.as_str());
        let key = norm_vec(&cur_chars);
        assert(all.contains(norm(st0[st0.len() - 1]@)));
        if seen_contains(&seen, &key) {
            proof {
                assert forall|y: Seq<char>| covered(sv0, st0, y) implies covered(seen_view(seen@), stack@, y) by {
                    lemma_cover_after(sv0, sv0, st0, st1, y);
                }
            }
            continue;
        }
        let ghost x = key@;
        seen.push(key);
        let ghost sv1 = seen_view(seen@);
        proof {
            assert(sv1 =~= sv0.push(x));
            assert(sv1[sv0.len() as int] == x);
            assert forall|y: Seq<char>| sv0.contains(y) implies sv1.contains(y) by {
                let j = choose|j: int| 0 <= j < sv0.len() && sv0[j] == y;
                assert(sv1[j] == y);
            }
            lemma_unseen_strict(all, sv0, sv1, x);
        }
        let next = graph.blockers(current.as_str());
        assert(strs(next@) == succ(g, x));
        if next.len() == 0 {
            if !out_has(&out, current.as_str()) {
                out.push(current);
                proof {
                    assert(strs(out@) =~= strs(out0).push(st0.last()@));
                    assert(out@[out0.len() as int] == st0.last());
                    assert(in_out(out@, x));
                    assert forall|y: Seq<char>| in_out(out0, y) implies in_out(out@, y) by {
                        let i = choose|i: int| 0 <= i < out0.len() && #[trigger] norm(out0[i]@) == y;
                        assert(out@[i] == out0[i]);
                    }
                }
            }
            proof {
                assert forall|y: Seq<char>| covered(sv0, st0, y) implies covered(sv1, stack@, y) by {
                    lemma_cover_after(sv0, sv1, st0, st1, y);
                }
                assert forall|z: Seq<char>| #[trigger]
                    sv1.contains(z) implies (is_leaf(g, z) ==> in_out(out@, z)) && forall|k: int|
                        0 <= k < succ(g, z).len() ==> covered(sv1, stack@, #[trigger] norm(succ(g, z)[k])) by {
                    if z != x {
                        let j = choose|j: int| 0 <= j < sv1.len() && sv1[j] == z;
                        assert(j < sv0.len());
                        assert(sv0[j] == z);
                        assert(sv0.contains(z));
                        if is_leaf(g, z) {
                            let i = choose|i: int| 0 <= i < out0.len() && #[trigger] norm(out0[i]@) == z;
                            assert(out@[i] == out0[i]);
                        }
                        assert forall|k: int| 0 <= k < succ(g, z).len() implies covered(sv1, stack@, #[trigger] norm(succ(g, z)[k])) by {
                            assert(covered(sv0, st0, norm(succ(g, z)[k])));
                        }
                    }
                }
            }
        } else {
            let ghost stk1 = stack@;
            let mut k: usize = 0;
            while k < next.len()
                invariant
                    k <= next.len(),
                    stack@ =~= stk1 + next@.take(k as int),
                decreases next.len() - k,
            {
                let c = next[k].clone();
                stack.push(c);
                proof {
                    assert(next@.take(k + 1) =~= next@.take(k as int).push(next@[k as int]));
                }
                k = k + 1;
            }
            proof {
                assert(next@.take(next.len() as int) =~= next@);
                assert(stack@ =~= st1 + next@);
                assert(strs(stack@) =~= strs(st1) + strs(next@));
                assert(reach1(g, t, x));
                assert forall|j: int| 0 <= j < stack@.len() implies all.contains(norm(#[trigger] stack@[j]@))
                    && reach1(g, t, norm(stack@[j]@)) by {
                    if j < st1.len() {
                        assert(stack@[j] == st0[j]);
                    } else {
                        let m = j - st1.len();
                        assert(stack@[j] == next@[m]);
                        assert(next@[m]@ == succ(g, x)[m]);
                        lemma_lookup_in_all(g, x, m);
                        assert(edge(g, x, norm(succ(g, x)[m])));
                        lemma_reach1_step(g, t, x, norm(succ(g, x)[m]));
                    }
                }
                assert forall|y: Seq<char>| covered(sv0, st0, y) implies covered(sv1, stack@, y) by {
                    lemma_cover_after(sv0, sv1, st0, stack@, y);
                }
                assert forall|z: Seq<char>| #[trigger]
                    sv1.contains(z) implies (is_leaf(g, z) ==> in_out(out@, z)) && forall|k: int|
                        0 <= k < succ(g, z).len() ==> covered(sv1, stack@, #[trigger] norm(succ(g, z)[k])) by {
                    if z != x {
                        let j = choose|j: int| 0 <= j < sv1.len() && sv1[j] == z;
                        assert(j < sv0.len());
                        assert(sv0[j] == z);
                        assert(sv0.contains(z));
                        assert forall|k: int| 0 <= k < succ(g, z).len() implies covered(sv1, stack@, #[trigger] norm(succ(g, z)[k])) by {
                            assert(covered(sv0, st0, norm(succ(g, z)[k])));
                        }
                    } else {
                        assert forall|k: int| 0 <= k < succ(g, z).len() implies covered(sv1, stack@, #[trigger] norm(succ(g, z)[k])) by {
                            assert(norm(stack@[st1.len() + k]@) == norm(succ(g, z)[k]));
                        }
                    }
                }
            }
        }
    }
    proof {
        assert forall|y: Seq<char>| is_leaf(g, y) && #[trigger] reach1(g, t, y) implies in_out(out@, y) by {
            let k = choose|k: int| 0 <= k < s0.len() && #[trigger] reachable(g, norm(s0[k]), y);
            let p = choose|p: Seq<Seq<char>>| p.len() >= 1 && p[0] == norm(s0[k]) && p.last() == y && #[trigger] is_walk(g, p);
            assert(covered(seen_view(seen@), stack@, norm(s0[k])));
            assert forall|x: Seq<char>| seen_view(seen@).contains(x) implies #[trigger] closed_under(g, x, seen_view(seen@)) by {
                assert forall|m: int| 0 <= m < succ(g, x).len() implies seen_view(seen@).contains(#[trigger] norm(succ(g, x)[m])) by {
                    assert(covered(seen_view(seen@), stack@, norm(succ(g, x)[m])));
                }
            }
            lemma_closure_blocks(g, seen_view(seen@), p);
        }
    }
    out
}

} // verus!
