//! The profiler's structural scan: what one walk over a project tree
//! adds up to. The walk itself (which entries exist, their sizes) is the
//! caller's; this module decides what counts and how it is tallied.
use vstd::prelude::*;
use crate::knowledge_model::last_index;
use crate::pipeline::artifacts::{lemma_lex_irreflexive, lemma_lex_total, lemma_lex_transitive, lex_lt, vec_lt};
use crate::pipeline::compose::{pairs_view, sort_keyed, sort_pairs};
use crate::pipeline::graph::strs;
use crate::profiler::{ExtStat, ScanStats};
use crate::project::{excluded_by, is_excluded};
use crate::text::{chars_of, lower_s, lower_vec, str_eq, string_of, sub_vec, vec_eq};

verus! {

/// Files the scan looks at, at most.
pub const MAX_SCAN_FILES: usize = 50000;

/// Directories `largest_dirs` keeps, at most.
pub const MAX_LARGEST_DIRS: usize = 20;

/// One entry of the walk, as the walk reports it.
#[derive(Debug, Clone, PartialEq, Eq)]
pub struct WalkEntry {
    /// Project-relative, with forward slashes; empty for the root itself.
    pub rel_path: String,
    pub is_dir: bool,
    pub is_file: bool,
    /// The file's size; `None` when its metadata could not be read.
    pub bytes: Option<u64>,
}

/// A file name that marks a folder as a known kind of project.
pub open spec fn repo_marker(name: Seq<char>) -> bool {
    name == "Cargo.toml"@ || name == "package.json"@ || name == "pyproject.toml"@ || name == "go.mod"@
        || name == "pom.xml"@ || name == "build.gradle"@ || name == "Gemfile"@ || name
        == "requirements.txt"@ || name == "CMakeLists.txt"@
}

pub fn is_repo_marker(name: &str) -> (r: bool)
    ensures
        r == repo_marker(name@),
{
    str_eq(name, "Cargo.toml") || str_eq(name, "package.json") || str_eq(name, "pyproject.toml")
        || str_eq(name, "go.mod") || str_eq(name, "pom.xml") || str_eq(name, "build.gradle")
        || str_eq(name, "Gemfile") || str_eq(name, "requirements.txt") || str_eq(name, "CMakeLists.txt")
}

/// An extension whose bytes count as media.
pub open spec fn media_ext(ext: Seq<char>) -> bool {
    ext == "png"@ || ext == "jpg"@ || ext == "jpeg"@ || ext == "gif"@ || ext == "webp"@ || ext
        == "bmp"@ || ext == "svg"@ || ext == "mp4"@ || ext == "mov"@ || ext == "avi"@ || ext == "mkv"@
        || ext == "webm"@ || ext == "mp3"@ || ext == "wav"@ || ext == "flac"@ || ext == "m4a"@ || ext
        == "ogg"@
}

fn is_media_ext(ext: &str) -> (r: bool)
    ensures
        r == media_ext(ext@),
{
    str_eq(ext, "png") || str_eq(ext, "jpg") || str_eq(ext, "jpeg") || str_eq(ext, "gif") || str_eq(ext, "webp")
        || str_eq(ext, "bmp") || str_eq(ext, "svg") || str_eq(ext, "mp4") || str_eq(ext, "mov")
        || str_eq(ext, "avi") || str_eq(ext, "mkv") || str_eq(ext, "webm") || str_eq(ext, "mp3")
        || str_eq(ext, "wav") || str_eq(ext, "flac") || str_eq(ext, "m4a") || str_eq(ext, "ogg")
}

/// The last component of a relative path.
pub open spec fn base_name(rel: Seq<char>) -> Seq<char> {
    match last_index(rel, '/', rel.len() as int) {
        Some(k) => rel.skip(k + 1),
        None => rel,
    }
}

/// The folder a relative path sits in; empty at the top level.
pub open spec fn parent_of(rel: Seq<char>) -> Seq<char> {
    match last_index(rel, '/', rel.len() as int) {
        Some(k) => rel.take(k),
        None => seq![],
    }
}

/// `Path::extension`, lower-cased: what follows the last `.` of the file
/// name, unless that `.` starts the name; empty when there is none.
pub open spec fn ext_of(rel: Seq<char>) -> Seq<char> {
    let name = base_name(rel);
    match last_index(name, '.', name.len() as int) {
        Some(p) => if p > 0 {
            lower_s(name.skip(p + 1))
        } else {
            seq![]
        },
        None => seq![],
    }
}

/// `s` ends with `suf`.
pub open spec fn has_suffix(s: Seq<char>, suf: Seq<char>) -> bool {
    suf.len() <= s.len() && s.skip(s.len() - suf.len()) == suf
}

/// The entry takes part in the scan: not the root, not excluded.
pub open spec fn seen(e: WalkEntry, excluded: Seq<String>) -> bool {
    e.rel_path@.len() > 0 && !excluded_by(excluded, e.rel_path@)
}

/// A file the scan counts.
pub open spec fn is_counted(e: WalkEntry, excluded: Seq<String>) -> bool {
    seen(e, excluded) && !e.is_dir && e.is_file
}

/// A directory directly under the root.
pub open spec fn is_top(e: WalkEntry, excluded: Seq<String>) -> bool {
    seen(e, excluded) && e.is_dir && !e.rel_path@.contains('/')
}

/// Counted files among the first `n` entries.
pub open spec fn counted(es: Seq<WalkEntry>, excluded: Seq<String>, n: int) -> nat
    decreases n,
{
    if n <= 0 {
        0
    } else {
        counted(es, excluded, n - 1) + if is_counted(es[n - 1], excluded) {
            1nat
        } else {
            0nat
        }
    }
}

/// Where the walk stops, looking from `i` on: at the first counted file
/// once `cap` files were counted, else at the end.
pub open spec fn stop_from(es: Seq<WalkEntry>, excluded: Seq<String>, cap: nat, i: int) -> int
    decreases es.len() - i,
{
    if i < 0 || i >= es.len() {
        es.len() as int
    } else if is_counted(es[i], excluded) && counted(es, excluded, i) >= cap {
        i
    } else {
        stop_from(es, excluded, cap, i + 1)
    }
}

pub open spec fn bytes_of(e: WalkEntry) -> int {
    match e.bytes {
        Some(b) => b as int,
        None => 0,
    }
}

/// Every entry's reported size, added up over the first `n`.
pub open spec fn all_bytes(es: Seq<WalkEntry>, n: int) -> int
    decreases n,
{
    if n <= 0 {
        0
    } else {
        all_bytes(es, n - 1) + bytes_of(es[n - 1])
    }
}

/// Sizes of the counted, sized files among the first `n` whose extension
/// `keep` accepts.
pub open spec fn sum_where(
    es: Seq<WalkEntry>,
    excluded: Seq<String>,
    n: int,
    keep: spec_fn(Seq<char>) -> bool,
) -> int
    decreases n,
{
    if n <= 0 {
        0
    } else {
        let e = es[n - 1];
        sum_where(es, excluded, n - 1, keep) + if is_counted(e, excluded) && e.bytes.is_some() && keep(
            ext_of(e.rel_path@),
        ) {
            bytes_of(e)
        } else {
            0
        }
    }
}

/// The marker list after one more counted file named `name`.
pub open spec fn add_marker(ms: Seq<Seq<char>>, name: Seq<char>) -> Seq<Seq<char>> {
    if repo_marker(name) && !ms.contains(name) {
        ms.push(name)
    } else if has_suffix(lower_s(name), ".sln"@) && !ms.contains("*.sln"@) {
        ms.push("*.sln"@)
    } else {
        ms
    }
}

/// The markers found among the first `n` entries, `.git` first when the
/// root holds a `.git` folder.
pub open spec fn markers_upto(es: Seq<WalkEntry>, excluded: Seq<String>, has_git: bool, n: int) -> Seq<
    Seq<char>,
>
    decreases n,
{
    if n <= 0 {
        if has_git {
            seq![".git"@]
        } else {
            seq![]
        }
    } else {
        let prev = markers_upto(es, excluded, has_git, n - 1);
        if is_counted(es[n - 1], excluded) {
            add_marker(prev, base_name(es[n - 1].rel_path@))
        } else {
            prev
        }
    }
}

/// The first position of key `k` in `g`.
pub open spec fn key_at<V>(g: Seq<(Seq<char>, V)>, k: Seq<char>, i: int) -> Option<int>
    decreases g.len() - i,
{
    if i < 0 || i >= g.len() {
        None
    } else if g[i].0 == k {
        Some(i)
    } else {
        key_at(g, k, i + 1)
    }
}

/// One more file of extension `k` and `b` bytes.
pub open spec fn ext_step(g: Seq<(Seq<char>, (int, int))>, k: Seq<char>, b: int) -> Seq<(Seq<char>, (int, int))> {
    match key_at(g, k, 0) {
        Some(i) => g.update(i, (k, (g[i].1.0 + 1, g[i].1.1 + b))),
        None => g.push((k, (1, b))),
    }
}

/// Count and bytes per extension over the first `n` entries, each
/// extension where it first occurred.
pub open spec fn ext_groups(es: Seq<WalkEntry>, excluded: Seq<String>, n: int) -> Seq<(Seq<char>, (int, int))>
    decreases n,
{
    if n <= 0 {
        seq![]
    } else {
        let e = es[n - 1];
        let prev = ext_groups(es, excluded, n - 1);
        if is_counted(e, excluded) && e.bytes.is_some() {
            ext_step(prev, ext_of(e.rel_path@), bytes_of(e))
        } else {
            prev
        }
    }
}

/// `b` more bytes under folder `k`.
pub open spec fn dir_step(g: Seq<(Seq<char>, int)>, k: Seq<char>, b: int) -> Seq<(Seq<char>, int)> {
    match key_at(g, k, 0) {
        Some(i) => g.update(i, (k, g[i].1 + b)),
        None => g.push((k, b)),
    }
}

/// Bytes per folder (files directly in it) over the first `n` entries.
pub open spec fn dir_groups(es: Seq<WalkEntry>, excluded: Seq<String>, n: int) -> Seq<(Seq<char>, int)>
    decreases n,
{
    if n <= 0 {
        seq![]
    } else {
        let e = es[n - 1];
        let prev = dir_groups(es, excluded, n - 1);
        if is_counted(e, excluded) && e.bytes.is_some() && parent_of(e.rel_path@).len() > 0 {
            dir_step(prev, parent_of(e.rel_path@), bytes_of(e))
        } else {
            prev
        }
    }
}

/// The top-level folders among the first `n` entries, in walk order.
pub open spec fn tops_upto(es: Seq<WalkEntry>, excluded: Seq<String>, n: int) -> Seq<Seq<char>>
    decreases n,
{
    if n <= 0 {
        seq![]
    } else {
        let prev = tops_upto(es, excluded, n - 1);
        if is_top(es[n - 1], excluded) {
            prev.push(es[n - 1].rel_path@)
        } else {
            prev
        }
    }
}


pub open spec fn ext_view(v: Seq<(String, ExtStat)>) -> Seq<(Seq<char>, (int, int))> {
    v.map_values(|p: (String, ExtStat)| (p.0@, (p.1.count as int, p.1.bytes as int)))
}

pub open spec fn dir_view(v: Seq<(String, u64)>) -> Seq<(Seq<char>, int)> {
    v.map_values(|p: (String, u64)| (p.0@, p.1 as int))
}

fn last_of(v: &Vec<char>, c: char) -> (r: Option<usize>)
    ensures
        match last_index(v@, c, v@.len() as int) {
            Some(k) => r matches Some(x) && x == k && x < v.len(),
            None => r.is_none(),
        },
{
    let mut b: usize = v.len();
    while b > 0 && v[b - 1] != c
        invariant
            b <= v.len(),
            last_index(v@, c, v@.len() as int) == last_index(v@, c, b as int),
        decreases b,
    {
        b = b - 1;
    }
    if b == 0 {
        None
    } else {
        Some(b - 1)
    }
}

fn base_name_vec(rel: &Vec<char>) -> (r: Vec<char>)
    ensures
        r@ == base_name(rel@),
{
    match last_of(rel, '/') {
        Some(k) => {
            let r = sub_vec(rel, k + 1, rel.len());
            assert(r@ =~= rel@.skip(k + 1));
            r
        },
        None => rel.clone(),
    }
}

fn parent_vec(rel: &Vec<char>) -> (r: Vec<char>)
    ensures
        r@ == parent_of(rel@),
{
    match last_of(rel, '/') {
        Some(k) => {
            let r = sub_vec(rel, 0, k);
            assert(r@ =~= rel@.take(k as int));
            r
        },
        None => Vec::new(),
    }
}

fn ext_vec(rel: &Vec<char>) -> (r: Vec<char>)
    ensures
        r@ == ext_of(rel@),
{
    let name = base_name_vec(rel);
    match last_of(&name, '.') {
        Some(p) => {
            if p > 0 {
                let tail = sub_vec(&name, p + 1, name.len());
                assert(tail@ =~= name@.skip(p + 1));
                lower_vec(&tail)
            } else {
                Vec::new()
            }
        },
        None => Vec::new(),
    }
}

fn ends_with_sln(name: &Vec<char>) -> (r: bool)
    ensures
        r == has_suffix(lower_s(name@), ".sln"@),
{
    let l = lower_vec(name);
    let n = l.len();
    proof {
        reveal_strlit(".sln");
    }
    if n < 4 {
        return false;
    }
    let r = l[n - 4] == '.' && l[n - 3] == 's' && l[n - 2] == 'l' && l[n - 1] == 'n';
    let ghost t = l@.skip(n - 4);
    assert(t[0] == l@[n - 4] && t[1] == l@[n - 3] && t[2] == l@[n - 2] && t[3] == l@[n - 1]);
    assert(r ==> t =~= ".sln"@);
    r
}

fn seq_has(v: &[String], s: &Vec<char>) -> (r: bool)
    ensures
        r == strs(v@).contains(s@),
{
    let mut i: usize = 0;
    while i < v.len()
        invariant
            i <= v.len(),
            forall|k: int| 0 <= k < i ==> v@[k]@ != s@,
        decreases v.len() - i,
    {
        if vec_eq(&chars_of(v[i].as_str()), s) {
            assert(strs(v@)[i as int] == s@);
            return true;
        }
        i = i + 1;
    }
    proof {
        if strs(v@).contains(s@) {
            let k = choose|k: int| 0 <= k < strs(v@).len() && strs(v@)[k] == s@;
            assert(v@[k]@ == s@);
        }
    }
    false
}

fn key_pos_ext(g: &Vec<(String, ExtStat)>, k: &Vec<char>) -> (r: Option<usize>)
    ensures
        match key_at(ext_view(g@), k@, 0) {
            Some(i) => r matches Some(x) && x == i && x < g.len(),
            None => r.is_none(),
        },
{
    let mut i: usize = 0;
    while i < g.len()
        invariant
            i <= g.len(),
            key_at(ext_view(g@), k@, 0) == key_at(ext_view(g@), k@, i as int),
        decreases g.len() - i,
    {
        assert(ext_view(g@)[i as int].0 == g@[i as int].0@);
        if vec_eq(&chars_of(g[i].0.as_str()), k) {
            return Some(i);
        }
        i = i + 1;
    }
    None
}

pub(crate) fn key_pos_dir(g: &Vec<(String, u64)>, k: &Vec<char>) -> (r: Option<usize>)
    ensures
        match key_at(dir_view(g@), k@, 0) {
            Some(i) => r matches Some(x) && x == i && x < g.len(),
            None => r.is_none(),
        },
{
    let mut i: usize = 0;
    while i < g.len()
        invariant
            i <= g.len(),
            key_at(dir_view(g@), k@, 0) == key_at(dir_view(g@), k@, i as int),
        decreases g.len() - i,
    {
        assert(dir_view(g@)[i as int].0 == g@[i as int].0@);
        if vec_eq(&chars_of(g[i].0.as_str()), k) {
            return Some(i);
        }
        i = i + 1;
    }
    None
}


/// `a` comes before `b` among the largest folders: more bytes first, then
/// by name.
pub open spec fn dir_before(a: (Seq<char>, int), b: (Seq<char>, int)) -> bool {
    a.1 > b.1 || (a.1 == b.1 && lex_lt(a.0, b.0))
}

/// No key occurs twice.
pub open spec fn distinct_keys<V>(g: Seq<(Seq<char>, V)>) -> bool {
    forall|i: int, j: int| 0 <= i < j < g.len() ==> #[trigger] g[i].0 != #[trigger] g[j].0
}

/// `r` heads `g` largest first: `cap` entries of it (all, when there are
/// fewer), in order, each before every entry left out.
pub open spec fn top_head(g: Seq<(Seq<char>, int)>, r: Seq<(Seq<char>, int)>, cap: nat) -> bool {
    &&& r.len() == if g.len() < cap {
        g.len()
    } else {
        cap
    }
    &&& forall|i: int, j: int| 0 <= i < j < r.len() ==> dir_before(#[trigger] r[i], #[trigger] r[j])
    &&& forall|i: int| 0 <= i < r.len() ==> g.contains(#[trigger] r[i])
    &&& forall|k: int, i: int|
        0 <= k < g.len() && 0 <= i < r.len() && !r.contains(#[trigger] g[k]) ==> dir_before(
            #[trigger] r[i],
            g[k],
        )
}

/// `r` heads the folders `g` largest first, at most
/// [`MAX_LARGEST_DIRS`] of them.
pub open spec fn largest_head(g: Seq<(Seq<char>, int)>, r: Seq<(Seq<char>, int)>) -> bool {
    top_head(g, r, MAX_LARGEST_DIRS as nat)
}

proof fn lemma_dir_before_total(a: (Seq<char>, int), b: (Seq<char>, int))
    requires
        a.0 != b.0,
    ensures
        dir_before(a, b) || dir_before(b, a),
{
    if a.1 == b.1 {
        lemma_lex_total(a.0, b.0);
    }
}

proof fn lemma_dir_before_transitive(a: (Seq<char>, int), b: (Seq<char>, int), c: (Seq<char>, int))
    requires
        dir_before(a, b),
        dir_before(b, c),
    ensures
        dir_before(a, c),
{
    if a.1 == b.1 && b.1 == c.1 {
        lemma_lex_transitive(a.0, b.0, c.0);
    }
}

proof fn lemma_dir_before_irreflexive(a: (Seq<char>, int))
    ensures
        !dir_before(a, a),
{
    lemma_lex_irreflexive(a.0);
}

pub(crate) proof fn lemma_key_at_none<V>(g: Seq<(Seq<char>, V)>, k: Seq<char>, i: int)
    requires
        0 <= i,
        key_at(g, k, i).is_none(),
    ensures
        forall|j: int| i <= j < g.len() ==> #[trigger] g[j].0 != k,
    decreases g.len() - i,
{
    if i < g.len() {
        lemma_key_at_none(g, k, i + 1);
    }
}

pub(crate) proof fn lemma_key_at_some<V>(g: Seq<(Seq<char>, V)>, k: Seq<char>, i: int)
    requires
        0 <= i,
        key_at(g, k, i) is Some,
    ensures
        i <= key_at(g, k, i).unwrap() < g.len(),
        g[key_at(g, k, i).unwrap()].0 == k,
    decreases g.len() - i,
{
    if i < g.len() && g[i].0 != k {
        lemma_key_at_some(g, k, i + 1);
    }
}

fn dir_first(a: &(String, u64), b: &(String, u64)) -> (r: bool)
    ensures
        r == dir_before((a.0@, a.1 as int), (b.0@, b.1 as int)),
{
    a.1 > b.1 || (a.1 == b.1 && vec_lt(&chars_of(a.0.as_str()), &chars_of(b.0.as_str())))
}

/// The entries with the most bytes, largest first, ties by name, at most
/// `cap` of them.
pub(crate) fn top_by_bytes(g: &Vec<(String, u64)>, cap: usize) -> (r: Vec<(String, u64)>)
    requires
        distinct_keys(dir_view(g@)),
    ensures
        top_head(dir_view(g@), dir_view(r@), cap as nat),
{
    let ghost gv = dir_view(g@);
    let mut out: Vec<(String, u64)> = Vec::new();
    let mut i: usize = 0;
    while i < g.len()
        invariant
            i <= g.len(),
            gv == dir_view(g@),
            distinct_keys(gv),
            out@.len() == i,
            forall|a: int, b: int|
                0 <= a < b < out@.len() ==> dir_before(#[trigger] dir_view(out@)[a], #[trigger] dir_view(out@)[b]),
            forall|a: int| 0 <= a < out@.len() ==> gv.take(i as int).contains(#[trigger] dir_view(out@)[a]),
            forall|k: int| 0 <= k < i ==> dir_view(out@).contains(#[trigger] gv[k]),
        decreases g.len() - i,
    {
        let ghost ov = dir_view(out@);
        let x = (g[i].0.clone(), g[i].1);
        let ghost xv = (x.0@, x.1 as int);
        assert(xv == gv[i as int]);
        let mut p: usize = 0;
        while p < out.len() && !dir_first(&x, &out[p])
            invariant
                p <= out.len(),
                ov == dir_view(out@),
                xv == (x.0@, x.1 as int),
                forall|q: int| 0 <= q < p ==> !dir_before(xv, #[trigger] ov[q]),
            decreases out.len() - p,
        {
            assert(ov[p as int] == (out@[p as int].0@, out@[p as int].1 as int));
            p = p + 1;
        }
        proof {
            // Every earlier entry is another folder of `g`, so it sorts
            // strictly on one side of `x`.
            assert forall|q: int| 0 <= q < ov.len() implies #[trigger] ov[q].0 != xv.0 by {
                assert(gv.take(i as int).contains(ov[q]));
                let m = choose|m: int| 0 <= m < gv.take(i as int).len() && gv.take(i as int)[m] == ov[q];
                assert(gv[m] == ov[q]);
                assert(gv[m].0 != gv[i as int].0);
            }
            assert forall|q: int| 0 <= q < p implies dir_before(#[trigger] ov[q], xv) by {
                lemma_dir_before_total(ov[q], xv);
            }
            if p < ov.len() {
                assert forall|q: int| p <= q < ov.len() implies dir_before(xv, #[trigger] ov[q]) by {
                    if q > p {
                        lemma_dir_before_transitive(xv, ov[p as int], ov[q]);
                    }
                }
            }
        }
        out.insert(p, x);
        proof {
            let nv = dir_view(out@);
            assert(nv =~= ov.insert(p as int, xv));
            assert forall|a: int, b: int| 0 <= a < b < nv.len() implies dir_before(#[trigger] nv[a], #[trigger] nv[b]) by {
                if b < p {
                    assert(nv[a] == ov[a] && nv[b] == ov[b]);
                } else if b == p {
                    assert(nv[a] == ov[a] && nv[b] == xv);
                } else if a == p {
                    assert(nv[a] == xv && nv[b] == ov[b - 1]);
                } else if a < p {
                    assert(nv[a] == ov[a] && nv[b] == ov[b - 1]);
                    lemma_dir_before_transitive(ov[a], xv, ov[b - 1]);
                } else {
                    assert(nv[a] == ov[a - 1] && nv[b] == ov[b - 1]);
                }
            }
            assert forall|a: int| 0 <= a < nv.len() implies gv.take(i + 1).contains(#[trigger] nv[a]) by {
                if a == p {
                    assert(gv.take(i + 1)[i as int] == xv);
                } else {
                    let o = if a < p { a } else { a - 1 };
                    assert(nv[a] == ov[o]);
                    assert(gv.take(i as int).contains(ov[o]));
                    let m = choose|m: int| 0 <= m < gv.take(i as int).len() && gv.take(i as int)[m] == ov[o];
                    assert(gv.take(i + 1)[m] == ov[o]);
                }
            }
            assert forall|k: int| 0 <= k < i + 1 implies nv.contains(#[trigger] gv[k]) by {
                if k == i {
                    assert(nv[p as int] == xv);
                } else {
                    assert(ov.contains(gv[k]));
                    let m = choose|m: int| 0 <= m < ov.len() && ov[m] == gv[k];
                    if m < p {
                        assert(nv[m] == gv[k]);
                    } else {
                        assert(nv[m + 1] == gv[k]);
                    }
                }
            }
        }
        i = i + 1;
    }
    assert(gv.take(g.len() as int) =~= gv);
    let ghost full = dir_view(out@);
    if out.len() > cap {
        out.truncate(cap);
    }
    proof {
        let rv = dir_view(out@);
        assert(rv =~= full.take(rv.len() as int));
        assert forall|k: int, a: int|
            0 <= k < gv.len() && 0 <= a < rv.len() && !rv.contains(#[trigger] gv[k]) implies dir_before(
            #[trigger] rv[a],
            gv[k],
        ) by {
            assert(full.contains(gv[k]));
            let m = choose|m: int| 0 <= m < full.len() && full[m] == gv[k];
            if m < rv.len() {
                assert(rv[m] == gv[k]);
            }
            assert(rv[a] == full[a]);
        }
        assert forall|a: int| 0 <= a < rv.len() implies gv.contains(#[trigger] rv[a]) by {
            assert(rv[a] == full[a]);
        }
        assert forall|a: int, b: int| 0 <= a < b < rv.len() implies dir_before(#[trigger] rv[a], #[trigger] rv[b]) by {
            assert(rv[a] == full[a] && rv[b] == full[b]);
        }
    }
    out
}


/// Every extension.
pub open spec fn any_ext() -> spec_fn(Seq<char>) -> bool {
    |x: Seq<char>| true
}

/// The extensions listed in `l`.
pub open spec fn listed(l: Seq<Seq<char>>) -> spec_fn(Seq<char>) -> bool {
    |x: Seq<char>| l.contains(x)
}

/// Listed in `code` and not in `prose`: prose wins.
pub open spec fn code_only(prose: Seq<Seq<char>>, code: Seq<Seq<char>>) -> spec_fn(Seq<char>) -> bool {
    |x: Seq<char>| !prose.contains(x) && code.contains(x)
}

/// The media extensions.
pub open spec fn media() -> spec_fn(Seq<char>) -> bool {
    |x: Seq<char>| media_ext(x)
}

/// Each name keyed by itself.
pub open spec fn self_keyed(s: Seq<Seq<char>>) -> Seq<(Seq<char>, int)> {
    s.map_values(|t: Seq<char>| (t, 0int))
}

/// The keys of a keyed sequence.
pub open spec fn keys_of(s: Seq<(Seq<char>, int)>) -> Seq<Seq<char>> {
    s.map_values(|p: (Seq<char>, int)| p.0)
}

/// `s` in string order.
pub open spec fn sorted_names(s: Seq<Seq<char>>) -> Seq<Seq<char>> {
    keys_of(sort_keyed(self_keyed(s)))
}

/// What a scan of the walk `es` adds up to: the walk stops at the first
/// file beyond `cap`; `prose` and `code` name the extensions whose bytes
/// count as documents and as code.
pub open spec fn scan_result(
    es: Seq<WalkEntry>,
    excluded: Seq<String>,
    cap: nat,
    has_git: bool,
    prose: Seq<Seq<char>>,
    code: Seq<Seq<char>>,
    r: ScanStats,
) -> bool {
    let stop = stop_from(es, excluded, cap, 0);
    &&& r.total_files == counted(es, excluded, stop)
    &&& r.total_bytes == sum_where(es, excluded, stop, any_ext())
    &&& ext_view(r.extensions@) == ext_groups(es, excluded, stop)
    &&& strs(r.top_level_dirs@) == sorted_names(tops_upto(es, excluded, stop))
    &&& strs(r.markers@) == markers_upto(es, excluded, has_git, stop)
    &&& r.doc_bytes == sum_where(es, excluded, stop, listed(prose))
    &&& r.code_bytes == sum_where(es, excluded, stop, code_only(prose, code))
    &&& r.media_bytes == sum_where(es, excluded, stop, media())
    &&& largest_head(dir_groups(es, excluded, stop), dir_view(r.largest_dirs@))
    &&& r.truncated == (stop < es.len())
}

proof fn lemma_all_bytes_mono(es: Seq<WalkEntry>, n: int, m: int)
    requires
        0 <= n <= m,
    ensures
        all_bytes(es, n) <= all_bytes(es, m),
    decreases m - n,
{
    if n < m {
        lemma_all_bytes_mono(es, n, m - 1);
        assert(bytes_of(es[m - 1]) >= 0);
    }
}

fn has_slash(v: &Vec<char>) -> (r: bool)
    ensures
        r == v@.contains('/'),
{
    let mut i: usize = 0;
    while i < v.len()
        invariant
            i <= v.len(),
            forall|k: int| 0 <= k < i ==> v@[k] != '/',
        decreases v.len() - i,
    {
        if v[i] == '/' {
            return true;
        }
        i = i + 1;
    }
    false
}

fn sort_names(names: &Vec<String>) -> (r: Vec<String>)
    ensures
        strs(r@) == sorted_names(strs(names@)),
{
    let mut items: Vec<(String, usize)> = Vec::new();
    let mut i: usize = 0;
    while i < names.len()
        invariant
            i <= names.len(),
            items@.len() == i,
            pairs_view(items@) == self_keyed(strs(names@).take(i as int)),
        decreases names.len() - i,
    {
        let nm = names[i].clone();
        assert(nm@ == strs(names@)[i as int]);
        let ghost before = pairs_view(items@);
        items.push((nm, 0));
        let ghost want = self_keyed(strs(names@).take(i + 1));
        assert forall|j: int| 0 <= j < i + 1 implies #[trigger] pairs_view(items@)[j] == want[j] by {
            if j < i {
                assert(pairs_view(items@)[j] == before[j]);
                assert(before[j] == self_keyed(strs(names@).take(i as int))[j]);
            }
        }
        assert(pairs_view(items@) =~= want);
        i = i + 1;
    }
    assert(strs(names@).take(names.len() as int) =~= strs(names@));
    let sorted = sort_pairs(&items);
    let mut out: Vec<String> = Vec::new();
    let mut k: usize = 0;
    while k < sorted.len()
        invariant
            k <= sorted.len(),
            out@.len() == k,
            strs(out@) == keys_of(pairs_view(sorted@).take(k as int)),
        decreases sorted.len() - k,
    {
        let nm = sorted[k].0.clone();
        assert(nm@ == pairs_view(sorted@)[k as int].0);
        let ghost before = strs(out@);
        out.push(nm);
        let ghost want = keys_of(pairs_view(sorted@).take(k + 1));
        assert forall|j: int| 0 <= j < k + 1 implies #[trigger] strs(out@)[j] == want[j] by {
            if j < k {
                assert(strs(out@)[j] == before[j]);
                assert(before[j] == keys_of(pairs_view(sorted@).take(k as int))[j]);
            }
        }
        assert(strs(out@) =~= want);
        k = k + 1;
    }
    assert(pairs_view(sorted@).take(sorted.len() as int) =~= pairs_view(sorted@));
    out
}

/// Add up one walk over a project tree: files counted up to `cap`
/// (beyond it the scan stops and says so), sizes by extension and by
/// folder, the repository markers seen, the top-level folders, and the
/// largest folders by bytes. Entries in `excluded` folders, and the root
/// entry, are passed over.
#[verifier::rlimit(60)]
pub fn scan_stats_from(
    entries: &[WalkEntry],
    excluded: &[String],
    cap: usize,
    has_git: bool,
    prose_exts: &[String],
    code_exts: &[String],
) -> (r: ScanStats)
    requires
        all_bytes(entries@, entries@.len() as int) <= u64::MAX,
    ensures
        scan_result(entries@, excluded@, cap as nat, has_git, strs(prose_exts@), strs(code_exts@), r),
{
    let ghost es = entries@;
    let ghost ex = excluded@;
    let ghost prose = strs(prose_exts@);
    let ghost code = strs(code_exts@);
    let mut files: usize = 0;
    let mut total: u64 = 0;
    let mut doc: u64 = 0;
    let mut code_b: u64 = 0;
    let mut media_b: u64 = 0;
    let mut exts: Vec<(String, ExtStat)> = Vec::new();
    let mut dirs: Vec<(String, u64)> = Vec::new();
    let mut markers: Vec<String> = Vec::new();
    if has_git {
        markers.push(string_of(chars_of(".git").as_slice()));
    }
    proof {
        assert(strs(markers@) =~= markers_upto(es, ex, has_git, 0));
        assert(ext_view(exts@) =~= ext_groups(es, ex, 0));
        assert(dir_view(dirs@) =~= dir_groups(es, ex, 0));
    }
    let mut tops: Vec<String> = Vec::new();
    let mut truncated = false;
    let mut i: usize = 0;
    while i < entries.len() && !truncated
        invariant
            i <= entries.len(),
            es == entries@,
            ex == excluded@,
            prose == strs(prose_exts@),
            code == strs(code_exts@),
            all_bytes(es, es.len() as int) <= u64::MAX,
            stop_from(es, ex, cap as nat, 0) == if truncated {
                i as int
            } else {
                stop_from(es, ex, cap as nat, i as int)
            },
            truncated ==> i < entries.len(),
            files == counted(es, ex, i as int),
            files <= cap,
            total == sum_where(es, ex, i as int, any_ext()),
            total <= all_bytes(es, i as int),
            doc == sum_where(es, ex, i as int, listed(prose)),
            code_b == sum_where(es, ex, i as int, code_only(prose, code)),
            media_b == sum_where(es, ex, i as int, media()),
            doc <= total,
            code_b <= total,
            media_b <= total,
            ext_view(exts@) == ext_groups(es, ex, i as int),
            forall|k: int| 0 <= k < exts@.len() ==> (#[trigger] exts@[k]).1.count <= files && exts@[k].1.bytes <= total,
            dir_view(dirs@) == dir_groups(es, ex, i as int),
            distinct_keys(dir_view(dirs@)),
            forall|k: int| 0 <= k < dirs@.len() ==> (#[trigger] dirs@[k]).1 <= total,
            strs(markers@) == markers_upto(es, ex, has_git, i as int),
            strs(tops@) == tops_upto(es, ex, i as int),
        decreases entries.len() - i + if truncated {
            0int
        } else {
            1int
        },
    {
        let e = &entries[i];
        let rel = chars_of(e.rel_path.as_str());
        let skip = rel.len() == 0 || is_excluded(excluded, e.rel_path.as_str());
        proof {
            lemma_all_bytes_mono(es, i + 1, es.len() as int);
        }
        if skip {
            i = i + 1;
        } else if e.is_dir {
            if !has_slash(&rel) {
                let ghost before = tops@;
                tops.push(e.rel_path.clone());
                assert(strs(tops@) =~= strs(before).push(e.rel_path@));
            }
            i = i + 1;
        } else if !e.is_file {
            i = i + 1;
        } else if files >= cap {
            truncated = true;
        } else {
            files = files + 1;
            let name = base_name_vec(&rel);
            let name_s = string_of(name.as_slice());
            let sln = chars_of("*.sln");
            if is_repo_marker(name_s.as_str()) && !seq_has(markers.as_slice(), &name) {
                let ghost before = markers@;
                markers.push(name_s);
                assert(strs(markers@) =~= strs(before).push(name@));
            } else if ends_with_sln(&name) && !seq_has(markers.as_slice(), &sln) {
                let ghost before = markers@;
                markers.push(string_of(sln.as_slice()));
                assert(strs(markers@) =~= strs(before).push("*.sln"@));
            }
            match e.bytes {
                None => {},
                Some(b) => {
                    total = total + b;
                    let ext = ext_vec(&rel);
                    match key_pos_ext(&exts, &ext) {
                        Some(k) => {
                            let old = exts[k].1;
                            let ghost before = exts@;
                            exts.set(k, (string_of(ext.as_slice()), ExtStat { count: old.count + 1, bytes: old.bytes + b }));
                            assert(ext_view(exts@) =~= ext_view(before).update(
                                k as int,
                                (ext@, (ext_view(before)[k as int].1.0 + 1, ext_view(before)[k as int].1.1 + b)),
                            ));
                        },
                        None => {
                            let ghost before = exts@;
                            exts.push((string_of(ext.as_slice()), ExtStat { count: 1, bytes: b }));
                            assert(ext_view(exts@) =~= ext_view(before).push((ext@, (1int, b as int))));
                        },
                    }
                    if seq_has(prose_exts, &ext) {
                        doc = doc + b;
                    } else if seq_has(code_exts, &ext) {
                        code_b = code_b + b;
                    }
                    if is_media_ext(string_of(ext.as_slice()).as_str()) {
                        media_b = media_b + b;
                    }
                    let parent = parent_vec(&rel);
                    if parent.len() > 0 {
                        let ghost before = dirs@;
                        match key_pos_dir(&dirs, &parent) {
                            Some(k) => {
                                let old = dirs[k].1;
                                dirs.set(k, (string_of(parent.as_slice()), old + b));
                                assert(dir_view(dirs@) =~= dir_view(before).update(
                                    k as int,
                                    (parent@, dir_view(before)[k as int].1 + b),
                                ));
                                proof {
                                    lemma_key_at_some(dir_view(before), parent@, 0);
                                }
                                assert forall|a: int, c: int| 0 <= a < c < dir_view(dirs@).len() implies #[trigger] dir_view(dirs@)[a].0
                                    != #[trigger] dir_view(dirs@)[c].0 by {
                                    assert(dir_view(before)[k as int].0 == parent@);
                                    assert(dir_view(before)[a].0 != dir_view(before)[c].0);
                                }
                            },
                            None => {
                                proof {
                                    lemma_key_at_none(dir_view(before), parent@, 0);
                                }
                                dirs.push((string_of(parent.as_slice()), b));
                                assert(dir_view(dirs@) =~= dir_view(before).push((parent@, b as int)));
                            },
                        }
                    }
                },
            }
            i = i + 1;
        }
    }
    let top_level_dirs = sort_names(&tops);
    let largest = top_by_bytes(&dirs, MAX_LARGEST_DIRS);
    ScanStats {
        total_files: files,
        total_bytes: total,
        extensions: exts,
        top_level_dirs,
        markers,
        doc_bytes: doc,
        code_bytes: code_b,
        media_bytes: media_b,
        largest_dirs: largest,
        truncated,
    }
}


proof fn lemma_stop_counts(es: Seq<WalkEntry>, excluded: Seq<String>, cap: nat, i: int)
    requires
        0 <= i <= es.len(),
        counted(es, excluded, i) <= cap,
    ensures
        counted(es, excluded, stop_from(es, excluded, cap, i)) <= cap,
        stop_from(es, excluded, cap, i) < es.len() ==> counted(es, excluded, stop_from(es, excluded, cap, i))
            == cap,
    decreases es.len() - i,
{
    if i < es.len() {
        if !(is_counted(es[i], excluded) && counted(es, excluded, i) >= cap) {
            lemma_stop_counts(es, excluded, cap, i + 1);
        }
    }
}

/// A scan never counts more files than its cap, and a scan that stopped
/// early counted exactly the cap.
pub proof fn law_scan_respects_cap(
    es: Seq<WalkEntry>,
    excluded: Seq<String>,
    cap: nat,
    has_git: bool,
    prose: Seq<Seq<char>>,
    code: Seq<Seq<char>>,
    r: ScanStats,
)
    requires
        scan_result(es, excluded, cap, has_git, prose, code, r),
    ensures
        r.total_files <= cap,
        r.truncated ==> r.total_files == cap,
{
    lemma_stop_counts(es, excluded, cap, 0);
}

} // verus!
