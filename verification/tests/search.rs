use ken_core::search::{merge_hits, FtsHit, HybridHit, Source, VecHit};
use std::collections::HashMap;

fn fts(chunk_id: i64, path: &str, text: &str) -> FtsHit {
    FtsHit { chunk_id, path: path.to_string(), text: text.to_string() }
}

/// A semantic hit; its distance stays with the caller, which orders the
/// list by it, so it is not part of the hit here.
fn vec_hit(chunk_id: i64, path: &str, text: &str, _distance: f64) -> VecHit {
    VecHit { chunk_id, path: path.to_string(), text: text.to_string() }
}

#[test]
fn disjoint_lists_fts_first_then_vec_appended() {
    let fts_hits = vec![fts(1, "a.rs", "alpha"), fts(2, "b.rs", "beta")];
    let vec_hits = vec![vec_hit(3, "c.rs", "gamma", 0.1), vec_hit(4, "d.rs", "delta", 0.2)];

    let merged = merge_hits(&fts_hits, &vec_hits);

    assert_eq!(merged.len(), 4);
    assert_eq!(merged[0].path, "a.rs");
    assert_eq!(merged[0].source, Source::Keyword);
    assert_eq!(merged[1].path, "b.rs");
    assert_eq!(merged[1].source, Source::Keyword);
    assert_eq!(merged[2].path, "c.rs");
    assert_eq!(merged[2].source, Source::Semantic);
    assert_eq!(merged[3].path, "d.rs");
    assert_eq!(merged[3].source, Source::Semantic);
}

#[test]
fn full_overlap_tags_both_and_keeps_fts_order() {
    let fts_hits = vec![fts(1, "a.rs", "alpha-fts"), fts(2, "b.rs", "beta-fts")];
    let vec_hits = vec![vec_hit(20, "b.rs", "beta-vec", 0.05), vec_hit(10, "a.rs", "alpha-vec", 0.1)];

    let merged = merge_hits(&fts_hits, &vec_hits);

    assert_eq!(merged.len(), 2);
    assert_eq!(merged[0].path, "a.rs");
    assert_eq!(merged[0].source, Source::Both);
    assert_eq!(merged[0].snippet, "alpha-fts", "FTS snippet wins, not vec's");
    assert_eq!(merged[1].path, "b.rs");
    assert_eq!(merged[1].source, Source::Both);
    assert_eq!(merged[1].snippet, "beta-fts");
}

#[test]
fn fts_order_is_preserved_verbatim_even_against_better_vec_ranks() {
    let fts_hits = vec![fts(1, "low-rank.rs", "text"), fts(2, "high-rank.rs", "text")];
    let vec_hits = vec![vec_hit(3, "new.rs", "brand new hit", 0.01)];

    let merged = merge_hits(&fts_hits, &vec_hits);

    assert_eq!(
        merged.iter().map(|h| h.path.as_str()).collect::<Vec<_>>(),
        vec!["low-rank.rs", "high-rank.rs", "new.rs"]
    );
}

#[test]
fn mixed_tagging_keyword_semantic_and_both() {
    let fts_hits = vec![fts(1, "keyword-only.rs", "kw"), fts(2, "shared.rs", "shared-fts")];
    let vec_hits = vec![vec_hit(2, "shared.rs", "shared-vec", 0.1), vec_hit(3, "semantic-only.rs", "sem", 0.2)];

    let merged = merge_hits(&fts_hits, &vec_hits);

    let by_path: HashMap<&str, &HybridHit> = merged.iter().map(|h| (h.path.as_str(), h)).collect();
    assert_eq!(by_path["keyword-only.rs"].source, Source::Keyword);
    assert_eq!(by_path["shared.rs"].source, Source::Both);
    assert_eq!(by_path["semantic-only.rs"].source, Source::Semantic);
}

#[test]
fn multiple_chunks_same_path_dedupe_to_first_fts_chunk() {
    let fts_hits = vec![fts(1, "a.rs", "best chunk"), fts(2, "a.rs", "second-best chunk")];
    let vec_hits: Vec<VecHit> = Vec::new();

    let merged = merge_hits(&fts_hits, &vec_hits);

    assert_eq!(merged.len(), 1);
    assert_eq!(merged[0].chunk_id, 1);
    assert_eq!(merged[0].snippet, "best chunk");
}

#[test]
fn empty_inputs_yield_empty_output() {
    assert!(merge_hits(&[], &[]).is_empty());
}

#[test]
fn semantic_only_hits_are_tagged_semantic() {
    let only_vec = merge_hits(&[], &[vec_hit(1, "x.rs", "x", 0.0)]);
    assert_eq!(only_vec.len(), 1);
    assert_eq!(only_vec[0].source, Source::Semantic);
}

#[test]
fn a_shared_chunk_id_alone_tags_both() {
    let merged = merge_hits(&[fts(7, "a.rs", "kw")], &[vec_hit(7, "renamed.rs", "v", 0.3)]);
    assert_eq!(merged.len(), 2);
    assert_eq!(merged[0].source, Source::Both);
    assert_eq!(merged[1].path, "renamed.rs");
    assert_eq!(merged[1].source, Source::Semantic);
}
