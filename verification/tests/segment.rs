//! Segment lifecycle: merge planning, cross-index merges and the metadata
//! sort.

use stract::segment::{
    merge_metas, plan_merge_into_max_segments, sort_segments_by_max_doc, IndexMeta, SegmentMeta,
};
use stract::Error;

fn seg(id: u128, num_docs: u32, max_doc: u32, files: &[&str]) -> SegmentMeta {
    SegmentMeta { id, num_docs, max_doc, files: files.iter().map(|f| f.to_string()).collect() }
}

#[test]
fn no_merge_needed_below_bound() {
    let segments = vec![seg(1, 10, 10, &["a"]), seg(2, 20, 20, &["b"])];
    assert!(plan_merge_into_max_segments(&segments, 3).is_none());
    assert!(plan_merge_into_max_segments(&segments, 2).is_none());
}

#[test]
fn merge_plan_bounds_groups() {
    let segments = vec![
        seg(1, 10, 10, &["a"]),
        seg(2, 20, 20, &["b"]),
        seg(3, 30, 30, &["c"]),
        seg(4, 40, 40, &["d"]),
        seg(5, 50, 50, &["e"]),
    ];
    let plan = plan_merge_into_max_segments(&segments, 2).unwrap();
    assert_eq!(plan.len(), segments.len());
    // At most (2 + 1) / 2 = 1 group: everything merges into one segment.
    for g in &plan {
        assert!(*g < 1);
    }

    let plan = plan_merge_into_max_segments(&segments, 4).unwrap();
    // At most (4 + 1) / 2 = 2 groups remain, within the bound of 4.
    for g in &plan {
        assert!(*g < 2);
    }
}

#[test]
fn merge_unions_and_skips_duplicates() {
    let ours = IndexMeta { segments: vec![seg(1, 10, 10, &["a1"]), seg(2, 20, 20, &["a2"])] };
    let others = IndexMeta { segments: vec![seg(2, 20, 20, &["b1"]), seg(3, 30, 30, &["b2"])] };
    let (merged, moved) = merge_metas(&ours, &others).unwrap();
    // Segment 2 already exists here and is skipped; only segment 3 moves.
    assert_eq!(moved.len(), 1);
    assert_eq!(moved[0].id, 3);
    let ids: Vec<u128> = merged.segments.iter().map(|s| s.id).collect();
    assert_eq!(ids, vec![1, 2, 3]);
}

#[test]
fn merge_conflicts_on_shared_filename() {
    let ours = IndexMeta { segments: vec![seg(1, 10, 10, &["shared.idx"])] };
    let others = IndexMeta { segments: vec![seg(2, 20, 20, &["shared.idx"])] };
    assert_eq!(merge_metas(&ours, &others).unwrap_err(), Error::Conflict);

    // Two incoming segments sharing a filename conflict too.
    let ours = IndexMeta { segments: vec![] };
    let others = IndexMeta {
        segments: vec![seg(2, 20, 20, &["x.idx"]), seg(3, 30, 30, &["x.idx"])],
    };
    assert_eq!(merge_metas(&ours, &others).unwrap_err(), Error::Conflict);
}

#[test]
fn merged_segments_sort_by_max_doc() {
    let merged = vec![seg(1, 10, 10, &["a"]), seg(2, 20, 30, &["b"]), seg(3, 30, 20, &["c"])];
    let sorted = sort_segments_by_max_doc(merged);
    let max_docs: Vec<u32> = sorted.iter().map(|s| s.max_doc).collect();
    assert_eq!(max_docs, vec![30, 20, 10]);
}
