//! Hybrid search's merge: keyword hits fill the list first, one per path,
//! and semantic hits only add paths the keyword pass missed.
use vstd::prelude::*;
use crate::text::str_eq;

verus! {

/// One chunk-level keyword hit.
#[derive(Debug, Clone, PartialEq, Eq)]
pub struct FtsHit {
    pub chunk_id: i64,
    pub path: String,
    pub text: String,
}

/// One chunk-level semantic hit, best first (its distance stays with the
/// caller, which orders by it).
#[derive(Debug, Clone, PartialEq, Eq)]
pub struct VecHit {
    pub chunk_id: i64,
    pub path: String,
    pub text: String,
}

/// Which retriever(s) surfaced a path's winning chunk.
#[derive(Debug, Clone, Copy, PartialEq, Eq, Structural)]
pub enum Source {
    Keyword,
    Semantic,
    Both,
}

/// One path-grouped result.
#[derive(Debug, Clone, PartialEq, Eq)]
pub struct HybridHit {
    pub path: String,
    pub chunk_id: i64,
    pub snippet: String,
    pub source: Source,
}

/// A result as plain values: path, chunk, snippet, source.
pub type HitView = (Seq<char>, i64, Seq<char>, Source);

pub open spec fn hit_view(h: HybridHit) -> HitView {
    (h.path@, h.chunk_id, h.snippet@, h.source)
}

pub open spec fn hits_view(hs: Seq<HybridHit>) -> Seq<HitView> {
    hs.map_values(|h: HybridHit| hit_view(h))
}

/// Some result already covers `path`.
pub open spec fn has_path(out: Seq<HitView>, path: Seq<char>) -> bool {
    exists|i: int| 0 <= i < out.len() && #[trigger] out[i].0 == path
}

/// The semantic pass also found this chunk or this path.
pub open spec fn seen_semantically(vec: Seq<VecHit>, chunk_id: i64, path: Seq<char>) -> bool {
    exists|i: int| 0 <= i < vec.len() && (#[trigger] vec[i]).chunk_id == chunk_id || 0 <= i < vec.len() && vec[i].path@ == path
}

/// The keyword pass over `fts`, from results `out`.
pub open spec fn keyword_fill(out: Seq<HitView>, fts: Seq<FtsHit>, vec: Seq<VecHit>) -> Seq<HitView>
    decreases fts.len(),
{
    if fts.len() == 0 {
        out
    } else {
        let h = fts[0];
        let next = if has_path(out, h.path@) {
            out
        } else {
            out.push(
                (
                    h.path@,
                    h.chunk_id,
                    h.text@,
                    if seen_semantically(vec, h.chunk_id, h.path@) {
                        Source::Both
                    } else {
                        Source::Keyword
                    },
                ),
            )
        };
        keyword_fill(next, fts.drop_first(), vec)
    }
}

/// The semantic pass over `vec`, from results `out`.
pub open spec fn semantic_fill(out: Seq<HitView>, vec: Seq<VecHit>) -> Seq<HitView>
    decreases vec.len(),
{
    if vec.len() == 0 {
        out
    } else {
        let h = vec[0];
        let next = if has_path(out, h.path@) {
            out
        } else {
            out.push((h.path@, h.chunk_id, h.text@, Source::Semantic))
        };
        semantic_fill(next, vec.drop_first())
    }
}

/// The merged list: keyword hits first, then the semantic hits for paths
/// the keyword pass missed.
pub open spec fn merged_hits(fts: Seq<FtsHit>, vec: Seq<VecHit>) -> Seq<HitView> {
    semantic_fill(keyword_fill(seq![], fts, vec), vec)
}

fn out_has_path(out: &Vec<HybridHit>, path: &str) -> (r: bool)
    ensures
        r == has_path(hits_view(out@), path@),
{
    let mut i: usize = 0;
    while i < out.len()
        invariant
            i <= out.len(),
            forall|j: int| 0 <= j < i ==> #[trigger] hits_view(out@)[j].0 != path@,
        decreases out.len() - i,
    {
        if str_eq(out[i].path.as_str(), path) {
            assert(hits_view(out@)[i as int].0 == path@);
            return true;
        }
        i = i + 1;
    }
    false
}

fn semantic_has(vec_hits: &[VecHit], chunk_id: i64, path: &str) -> (r: bool)
    ensures
        r == seen_semantically(vec_hits@, chunk_id, path@),
{
    let mut i: usize = 0;
    while i < vec_hits.len()
        invariant
            i <= vec_hits.len(),
            forall|j: int|
                0 <= j < i ==> (#[trigger] vec_hits@[j]).chunk_id != chunk_id && vec_hits@[j].path@ != path@,
        decreases vec_hits.len() - i,
    {
        let h = &vec_hits[i];
        assert(*h == vec_hits@[i as int]);
        let same_path = str_eq(h.path.as_str(), path);
        if h.chunk_id == chunk_id || same_path {
            return true;
        }
        i = i + 1;
    }
    false
}

/// Merge keyword and semantic hits: keyword hits in their order, one per
/// distinct path (the first chunk wins the snippet), tagged `Both` when
/// the semantic pass saw the chunk or the path; then semantic hits, in
/// their order, for paths not yet present. Semantic hits never move or
/// replace a keyword hit.
pub fn merge_hits(fts_hits: &[FtsHit], vec_hits: &[VecHit]) -> (r: Vec<HybridHit>)
    ensures
        hits_view(r@) == merged_hits(fts_hits@, vec_hits@),
{
    let mut out: Vec<HybridHit> = Vec::new();
    let mut i: usize = 0;
    assert(fts_hits@.skip(0) =~= fts_hits@);
    assert(hits_view(out@) =~= Seq::<HitView>::empty());
    while i < fts_hits.len()
        invariant
            i <= fts_hits.len(),
            keyword_fill(seq![], fts_hits@, vec_hits@) == keyword_fill(
                hits_view(out@),
                fts_hits@.skip(i as int),
                vec_hits@,
            ),
        decreases fts_hits.len() - i,
    {
        let h = &fts_hits[i];
        proof {
            assert(fts_hits@.skip(i as int)[0] == fts_hits@[i as int]);
            assert(fts_hits@.skip(i as int).drop_first() =~= fts_hits@.skip(i + 1));
        }
        if !out_has_path(&out, h.path.as_str()) {
            let source = if semantic_has(vec_hits, h.chunk_id, h.path.as_str()) {
                Source::Both
            } else {
                Source::Keyword
            };
            let ghost before = hits_view(out@);
            let hit = HybridHit { path: h.path.clone(), chunk_id: h.chunk_id, snippet: h.text.clone(), source };
            out.push(hit);
            assert(hits_view(out@) =~= before.push(hit_view(hit)));
        }
        i = i + 1;
    }
    assert(fts_hits@.skip(fts_hits.len() as int) =~= Seq::<FtsHit>::empty());
    let mut k: usize = 0;
    assert(vec_hits@.skip(0) =~= vec_hits@);
    while k < vec_hits.len()
        invariant
            k <= vec_hits.len(),
            merged_hits(fts_hits@, vec_hits@) == semantic_fill(hits_view(out@), vec_hits@.skip(k as int)),
        decreases vec_hits.len() - k,
    {
        let h = &vec_hits[k];
        proof {
            assert(vec_hits@.skip(k as int)[0] == vec_hits@[k as int]);
            assert(vec_hits@.skip(k as int).drop_first() =~= vec_hits@.skip(k + 1));
        }
        if !out_has_path(&out, h.path.as_str()) {
            let ghost before = hits_view(out@);
            let hit = HybridHit {
                path: h.path.clone(),
                chunk_id: h.chunk_id,
                snippet: h.text.clone(),
                source: Source::Semantic,
            };
            out.push(hit);
            assert(hits_view(out@) =~= before.push(hit_view(hit)));
        }
        k = k + 1;
    }
    out
}

/// Paths in a merged list are distinct.
pub open spec fn distinct_paths(out: Seq<HitView>) -> bool {
    forall|i: int, j: int| 0 <= i < j < out.len() ==> #[trigger] out[i].0 != #[trigger] out[j].0
}

proof fn lemma_keyword_fill_distinct(out: Seq<HitView>, fts: Seq<FtsHit>, vec: Seq<VecHit>)
    requires
        distinct_paths(out),
    ensures
        distinct_paths(keyword_fill(out, fts, vec)),
    decreases fts.len(),
{
    if fts.len() > 0 {
        let h = fts[0];
        if !has_path(out, h.path@) {
            let n = out.push(
                (
                    h.path@,
                    h.chunk_id,
                    h.text@,
                    if seen_semantically(vec, h.chunk_id, h.path@) {
                        Source::Both
                    } else {
                        Source::Keyword
                    },
                ),
            );
            assert forall|i: int, j: int| 0 <= i < j < n.len() implies #[trigger] n[i].0 != #[trigger] n[j].0 by {
                if j == out.len() {
                    assert(n[i] == out[i]);
                } else {
                    assert(n[i] == out[i] && n[j] == out[j]);
                }
            }
            lemma_keyword_fill_distinct(n, fts.drop_first(), vec);
        } else {
            lemma_keyword_fill_distinct(out, fts.drop_first(), vec);
        }
    }
}

proof fn lemma_semantic_fill_distinct(out: Seq<HitView>, vec: Seq<VecHit>)
    requires
        distinct_paths(out),
    ensures
        distinct_paths(semantic_fill(out, vec)),
    decreases vec.len(),
{
    if vec.len() > 0 {
        let h = vec[0];
        if !has_path(out, h.path@) {
            let n = out.push((h.path@, h.chunk_id, h.text@, Source::Semantic));
            assert forall|i: int, j: int| 0 <= i < j < n.len() implies #[trigger] n[i].0 != #[trigger] n[j].0 by {
                if j == out.len() {
                    assert(n[i] == out[i]);
                } else {
                    assert(n[i] == out[i] && n[j] == out[j]);
                }
            }
            lemma_semantic_fill_distinct(n, vec.drop_first());
        } else {
            lemma_semantic_fill_distinct(out, vec.drop_first());
        }
    }
}

/// Every path appears at most once in a merged list.
pub proof fn law_merged_paths_are_distinct(fts: Seq<FtsHit>, vec: Seq<VecHit>)
    ensures
        distinct_paths(merged_hits(fts, vec)),
{
    lemma_keyword_fill_distinct(seq![], fts, vec);
    lemma_semantic_fill_distinct(keyword_fill(seq![], fts, vec), vec);
}

} // verus!
