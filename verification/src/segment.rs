//! Segment lifecycle: the metadata that `meta.json` enumerates, the plan
//! that merges segments down to a bounded count, and the cross-index merge
//! that moves another index's segments into this one, aborting before any
//! file move when two distinct segments share a filename.

use vstd::prelude::*;

use vstd::pervasive::VecAdditionalExecFns;

use crate::Error;

verus! {

broadcast use vstd::seq_lib::group_to_multiset_ensures;

/// The metadata of one immutable segment: its identifier, how many
/// documents it holds, its highest document id, and the files that make it
/// up on disk.
#[derive(Debug, Clone)]
pub struct SegmentMeta {
    pub id: u128,
    pub num_docs: u32,
    pub max_doc: u32,
    pub files: Vec<String>,
}

/// What one segment's metadata holds, as mathematical sequences.
pub struct SegmentMetaView {
    pub id: u128,
    pub num_docs: u32,
    pub max_doc: u32,
    pub files: Seq<Seq<char>>,
}

impl View for SegmentMeta {
    type V = SegmentMetaView;

    open spec fn view(&self) -> SegmentMetaView {
        SegmentMetaView {
            id: self.id,
            num_docs: self.num_docs,
            max_doc: self.max_doc,
            files: self.files.deep_view(),
        }
    }
}

impl DeepView for SegmentMeta {
    type V = SegmentMetaView;

    open spec fn deep_view(&self) -> SegmentMetaView {
        self.view()
    }
}

/// What `meta.json` enumerates: the segments of one index.
#[derive(Debug, Clone)]
pub struct IndexMeta {
    pub segments: Vec<SegmentMeta>,
}

fn copy_segment_meta(s: &SegmentMeta) -> (r: SegmentMeta)
    ensures
        r@ == s@,
{
    let mut files: Vec<String> = Vec::new();
    let mut i: usize = 0;
    while i < s.files.len()
        invariant
            i <= s.files@.len(),
            files@.len() == i,
            forall|k: int| 0 <= k < i ==> (#[trigger] files@[k])@ == s.files@[k]@,
        decreases s.files@.len() - i,
    {
        files.push(s.files[i].clone());
        i = i + 1;
    }
    let r = SegmentMeta { id: s.id, num_docs: s.num_docs, max_doc: s.max_doc, files };
    proof {
        assert(r@.files =~~= s@.files);
    }
    r
}

/// Plans the merge that brings an index down to at most `max_num_segments`
/// segments: `None` when the index already has few enough, otherwise the
/// group each segment joins. The segments are packed into at most
/// `(max_num_segments + 1) / 2` merge groups by greedy worst-fit: taking
/// segments by descending document count, each joins the group with the
/// fewest documents so far. Which group a segment joins is a packing
/// heuristic; the contract pins the group bound and that every segment
/// joins exactly one group, so merging the groups keeps every document.
pub fn plan_merge_into_max_segments(segments: &Vec<SegmentMeta>, max_num_segments: u32) -> (r:
    Option<Vec<usize>>)
    requires
        max_num_segments > 0,
    ensures
        r.is_none() <==> segments@.len() <= max_num_segments,
        r.is_some() ==> r.unwrap()@.len() == segments@.len(),
        r.is_some() ==> forall|i: int|
            0 <= i < segments@.len() ==> (#[trigger] r.unwrap()@[i]) < ((max_num_segments as usize)
                + 1) / 2,
{
    let n = segments.len();
    if n <= max_num_segments as usize {
        return None;
    }
    let num_groups: usize = ((max_num_segments as usize) + 1) / 2;

    let mut group_docs: Vec<u64> = Vec::new();
    let mut g: usize = 0;
    while g < num_groups
        invariant
            g <= num_groups,
            group_docs@.len() == g,
        decreases num_groups - g,
    {
        group_docs.push(0);
        g = g + 1;
    }

    let mut group_of: Vec<usize> = Vec::new();
    let mut assigned: Vec<bool> = Vec::new();
    let mut a: usize = 0;
    while a < n
        invariant
            a <= n,
            group_of@.len() == a,
            assigned@.len() == a,
            forall|q: int| 0 <= q < a ==> (#[trigger] group_of@[q]) == 0,
            forall|q: int| 0 <= q < a ==> (#[trigger] assigned@[q]) == false,
        decreases n - a,
    {
        group_of.push(0);
        assigned.push(false);
        a = a + 1;
    }

    // Greedy worst-fit: repeatedly the largest unassigned segment joins
    // the lightest group.
    let mut done: usize = 0;
    while done < n
        invariant
            0 < num_groups,
            done <= n,
            n == segments@.len(),
            assigned@.len() == n,
            group_of@.len() == n,
            group_docs@.len() == num_groups,
            forall|q: int| 0 <= q < n ==> (#[trigger] group_of@[q]) < num_groups,
        decreases n - done,
    {
        let mut best: usize = 0;
        let mut best_found: bool = false;
        let mut i: usize = 0;
        while i < n
            invariant
                i <= n,
                n == segments@.len(),
                assigned@.len() == n,
                best_found ==> best < n,
            decreases n - i,
        {
            if !assigned[i] {
                if !best_found {
                    best = i;
                    best_found = true;
                } else {
                    if segments[i].num_docs > segments[best].num_docs {
                        best = i;
                    }
                }
            }
            i = i + 1;
        }
        if !best_found {
            break ;
        }

        let mut target: usize = 0;
        let mut t: usize = 1;
        while t < num_groups
            invariant
                t <= num_groups,
                target < num_groups,
                group_docs@.len() == num_groups,
            decreases num_groups - t,
        {
            if group_docs[t] < group_docs[target] {
                target = t;
            }
            t = t + 1;
        }

        let nd = segments[best].num_docs as u64;
        let cur = group_docs[target];
        let add: u64 = if cur <= u64::MAX - nd {
            cur + nd
        } else {
            cur
        };
        group_docs.set(target, add);
        group_of.set(best, target);
        assigned.set(best, true);
        done = done + 1;
    }
    Some(group_of)
}

/// Whether some segment of `segs` carries the identifier `id`.
pub open spec fn has_id(segs: Seq<SegmentMetaView>, id: u128) -> bool {
    exists|i: int| 0 <= i < segs.len() && (#[trigger] segs[i]).id == id
}

/// The segments of `others` whose identifier does not already occur in
/// `ours`: the segments a cross-index merge moves over.
pub open spec fn kept_others(ours: Seq<SegmentMetaView>, others: Seq<SegmentMetaView>) -> Seq<
    SegmentMetaView,
>
    decreases others.len(),
{
    if others.len() == 0 {
        Seq::empty()
    } else {
        kept_others(ours, others.drop_last()) + (if has_id(ours, others.last().id) {
            Seq::empty()
        } else {
            seq![others.last()]
        })
    }
}

/// Whether two distinct segments share a filename.
pub open spec fn shares_file(a: SegmentMetaView, b: SegmentMetaView) -> bool {
    exists|fa: int, fb: int|
        0 <= fa < a.files.len() && 0 <= fb < b.files.len() && (#[trigger] a.files[fa]) == (
        #[trigger] b.files[fb])
}

/// Whether moving `kept` next to `ours` would collide on a filename: a
/// moved segment shares a file with an existing segment or with another
/// moved one.
pub open spec fn merge_conflict(ours: Seq<SegmentMetaView>, kept: Seq<SegmentMetaView>) -> bool {
    (exists|i: int, j: int|
        0 <= i < ours.len() && 0 <= j < kept.len() && shares_file(
            #[trigger] ours[i],
            #[trigger] kept[j],
        )) || (exists|j1: int, j2: int|
        0 <= j1 < kept.len() && 0 <= j2 < kept.len() && j1 != j2 && shares_file(
            #[trigger] kept[j1],
            #[trigger] kept[j2],
        ))
}

fn shares_file_x(a: &SegmentMeta, b: &SegmentMeta) -> (r: bool)
    ensures
        r == shares_file(a@, b@),
{
    let mut fa: usize = 0;
    while fa < a.files.len()
        invariant
            fa <= a.files@.len(),
            forall|qa: int, qb: int|
                0 <= qa < fa && 0 <= qb < b.files@.len() ==> (#[trigger] a@.files[qa]) != (
                #[trigger] b@.files[qb]),
        decreases a.files@.len() - fa,
    {
        let mut fb: usize = 0;
        while fb < b.files.len()
            invariant
                fa < a.files@.len(),
                fb <= b.files@.len(),
                forall|qb: int|
                    0 <= qb < fb ==> a@.files[fa as int] != (#[trigger] b@.files[qb]),
            decreases b.files@.len() - fb,
        {
            if a.files[fa].eq(&b.files[fb]) {
                proof {
                    assert(a@.files[fa as int] == b@.files[fb as int]);
                }
                return true;
            }
            fb = fb + 1;
        }
        fa = fa + 1;
    }
    false
}

fn has_id_x(segs: &Vec<SegmentMeta>, id: u128) -> (r: bool)
    ensures
        r == has_id(segs.deep_view(), id),
{
    let mut i: usize = 0;
    while i < segs.len()
        invariant
            i <= segs@.len(),
            forall|q: int| 0 <= q < i ==> (#[trigger] segs.deep_view()[q]).id != id,
        decreases segs@.len() - i,
    {
        if segs[i].id == id {
            proof {
                assert(segs.deep_view()[i as int].id == id);
            }
            return true;
        }
        proof {
            assert(segs.deep_view()[i as int] == segs@[i as int]@);
        }
        i = i + 1;
    }
    false
}

/// Merges another index's segment metadata into this one's. Segments
/// whose identifier already exists here are skipped. If a moved segment
/// would share a filename with any other segment, nothing is merged and
/// the merge fails with `Conflict` before any file is moved. On success
/// the new metadata lists this index's segments followed by the moved
/// ones, and the moved segments are returned for the caller to relocate.
pub fn merge_metas(ours: &IndexMeta, others: &IndexMeta) -> (r: Result<
    (IndexMeta, Vec<SegmentMeta>),
    Error,
>)
    ensures
        r.is_err() <==> merge_conflict(
            ours.segments.deep_view(),
            kept_others(ours.segments.deep_view(), others.segments.deep_view()),
        ),
        r.is_err() ==> r.unwrap_err() == Error::Conflict,
        r.is_ok() ==> r.unwrap().1.deep_view() == kept_others(
            ours.segments.deep_view(),
            others.segments.deep_view(),
        ),
        r.is_ok() ==> r.unwrap().0.segments.deep_view() == ours.segments.deep_view()
            + kept_others(ours.segments.deep_view(), others.segments.deep_view()),
{
    let ghost ours_v = ours.segments.deep_view();
    let ghost others_v = others.segments.deep_view();

    // The segments that would move over.
    let mut kept: Vec<SegmentMeta> = Vec::new();
    let mut j: usize = 0;
    while j < others.segments.len()
        invariant
            j <= others.segments@.len(),
            ours_v == ours.segments.deep_view(),
            others_v == others.segments.deep_view(),
            kept.deep_view() =~= kept_others(ours_v, others_v.take(j as int)),
        decreases others.segments@.len() - j,
    {
        let ghost prev = kept.deep_view();
        let seg = &others.segments[j];
        proof {
            assert(others_v[j as int] == others.segments@[j as int]@);
            assert(others_v.take(j + 1).drop_last() =~= others_v.take(j as int));
        }
        if !has_id_x(&ours.segments, seg.id) {
            kept.push(copy_segment_meta(seg));
            proof {
                assert(kept.deep_view() =~~= prev.push(others_v[j as int]));
            }
        }
        j = j + 1;
    }
    proof {
        assert(others_v.take(others_v.len() as int) =~= others_v);
    }

    // Refuse the merge before any file moves if a filename would collide.
    let mut a: usize = 0;
    while a < ours.segments.len()
        invariant
            a <= ours.segments@.len(),
            ours_v == ours.segments.deep_view(),
            others_v == others.segments.deep_view(),
            kept.deep_view() == kept_others(ours_v, others_v),
            forall|i: int, q: int|
                0 <= i < a && 0 <= q < kept.deep_view().len() ==> !shares_file(
                    #[trigger] ours_v[i],
                    #[trigger] kept.deep_view()[q],
                ),
        decreases ours.segments@.len() - a,
    {
        let mut b: usize = 0;
        while b < kept.len()
            invariant
                a < ours.segments@.len(),
                b <= kept@.len(),
                ours_v == ours.segments.deep_view(),
                others_v == others.segments.deep_view(),
                kept.deep_view() == kept_others(ours_v, others_v),
                forall|q: int|
                    0 <= q < b ==> !shares_file(ours_v[a as int], #[trigger] kept.deep_view()[q]),
            decreases kept@.len() - b,
        {
            if shares_file_x(&ours.segments[a], &kept[b]) {
                proof {
                    assert(ours_v[a as int] == ours.segments@[a as int]@);
                    assert(kept.deep_view()[b as int] == kept@[b as int]@);
                }
                return Err(Error::Conflict);
            }
            proof {
                assert(ours_v[a as int] == ours.segments@[a as int]@);
                assert(kept.deep_view()[b as int] == kept@[b as int]@);
            }
            b = b + 1;
        }
        a = a + 1;
    }
    let mut c: usize = 0;
    while c < kept.len()
        invariant
            c <= kept@.len(),
            kept.deep_view() == kept_others(ours_v, others_v),
            ours_v == ours.segments.deep_view(),
            others_v == others.segments.deep_view(),
            forall|i: int, q: int|
                0 <= i < ours_v.len() && 0 <= q < kept.deep_view().len() ==> !shares_file(
                    #[trigger] ours_v[i],
                    #[trigger] kept.deep_view()[q],
                ),
            forall|j1: int, j2: int|
                0 <= j1 < c && 0 <= j2 < kept.deep_view().len() && j1 != j2 ==> !shares_file(
                    #[trigger] kept.deep_view()[j1],
                    #[trigger] kept.deep_view()[j2],
                ),
        decreases kept@.len() - c,
    {
        let mut d: usize = 0;
        while d < kept.len()
            invariant
                c < kept@.len(),
                d <= kept@.len(),
                kept.deep_view() == kept_others(ours_v, others_v),
                ours_v == ours.segments.deep_view(),
                others_v == others.segments.deep_view(),
                forall|j2: int|
                    0 <= j2 < d && c as int != j2 ==> !shares_file(
                        kept.deep_view()[c as int],
                        #[trigger] kept.deep_view()[j2],
                    ),
            decreases kept@.len() - d,
        {
            if d != c {
                if shares_file_x(&kept[c], &kept[d]) {
                    proof {
                        assert(kept.deep_view()[c as int] == kept@[c as int]@);
                        assert(kept.deep_view()[d as int] == kept@[d as int]@);
                    }
                    return Err(Error::Conflict);
                }
            }
            proof {
                assert(kept.deep_view()[c as int] == kept@[c as int]@);
                assert(kept.deep_view()[d as int] == kept@[d as int]@);
            }
            d = d + 1;
        }
        c = c + 1;
    }

    // Build the merged metadata: our segments, then the moved ones.
    let mut merged: Vec<SegmentMeta> = Vec::new();
    let mut m: usize = 0;
    while m < ours.segments.len()
        invariant
            m <= ours.segments@.len(),
            ours_v == ours.segments.deep_view(),
            merged.deep_view() =~= ours_v.take(m as int),
        decreases ours.segments@.len() - m,
    {
        let ghost prev = merged.deep_view();
        merged.push(copy_segment_meta(&ours.segments[m]));
        proof {
            assert(ours_v[m as int] == ours.segments@[m as int]@);
            assert(merged.deep_view() =~~= prev.push(ours_v[m as int]));
            assert(ours_v.take(m + 1) =~= ours_v.take(m as int).push(ours_v[m as int]));
        }
        m = m + 1;
    }
    proof {
        assert(ours_v.take(ours_v.len() as int) =~= ours_v);
    }
    let mut m2: usize = 0;
    while m2 < kept.len()
        invariant
            m2 <= kept@.len(),
            kept.deep_view() == kept_others(ours_v, others_v),
            merged.deep_view() =~= ours_v + kept.deep_view().take(m2 as int),
        decreases kept@.len() - m2,
    {
        let ghost prev = merged.deep_view();
        merged.push(copy_segment_meta(&kept[m2]));
        proof {
            assert(kept.deep_view()[m2 as int] == kept@[m2 as int]@);
            assert(merged.deep_view() =~~= prev.push(kept.deep_view()[m2 as int]));
            assert(ours_v + kept.deep_view().take(m2 + 1) =~= (ours_v + kept.deep_view().take(
                m2 as int,
            )).push(kept.deep_view()[m2 as int]));
        }
        m2 = m2 + 1;
    }
    proof {
        assert(kept.deep_view().take(kept.deep_view().len() as int) =~= kept.deep_view());
    }
    Ok((IndexMeta { segments: merged }, kept))
}

/// Sorts segments by descending `max_doc`, as the merged metadata is
/// written: the result holds the same segments.
pub fn sort_segments_by_max_doc(segments: Vec<SegmentMeta>) -> (r: Vec<SegmentMeta>)
    ensures
        r@.len() == segments@.len(),
        r@.to_multiset() == segments@.to_multiset(),
        forall|i: int, j: int| 0 <= i <= j < r@.len() ==> r@[i].max_doc >= r@[j].max_doc,
{
    let mut v = segments;
    let n = v.len();
    let mut i: usize = 0;
    while i < n
        invariant
            i <= n,
            n == v@.len(),
            v@.to_multiset() == segments@.to_multiset(),
            v@.len() == segments@.len(),
            forall|p: int, q: int| 0 <= p <= q < i ==> v@[p].max_doc >= v@[q].max_doc,
            forall|p: int, q: int| 0 <= p < i && i <= q < n ==> v@[p].max_doc >= v@[q].max_doc,
        decreases n - i,
    {
        let mut best: usize = i;
        let mut t: usize = i + 1;
        while t < n
            invariant
                i <= best < n,
                i < n,
                i + 1 <= t <= n,
                n == v@.len(),
                forall|q: int| i <= q < t ==> v@[best as int].max_doc >= (#[trigger] v@[q]).max_doc,
            decreases n - t,
        {
            if v[t].max_doc > v[best].max_doc {
                best = t;
            }
            t = t + 1;
        }
        let ghost before = v@;
        if best != i {
            let mut tmp = SegmentMeta { id: 0, num_docs: 0, max_doc: 0, files: Vec::new() };
            v.set_and_swap(i, &mut tmp);
            v.set_and_swap(best, &mut tmp);
            v.set_and_swap(i, &mut tmp);
            proof {
                assert(v@ =~= before.update(i as int, before[best as int]).update(
                    best as int,
                    before[i as int],
                ));
                lemma_swap_multiset(before, v@, i as int, best as int);
            }
        }
        i = i + 1;
    }
    v
}

/// The documents of an index: the union of its segments' document sets.
pub open spec fn union_all<D>(docsets: Seq<Set<D>>) -> Set<D>
    decreases docsets.len(),
{
    if docsets.len() == 0 {
        Set::empty()
    } else {
        union_all(docsets.drop_last()).union(docsets.last())
    }
}

proof fn lemma_union_all_membership<D>(docsets: Seq<Set<D>>, x: D)
    ensures
        union_all(docsets).contains(x) <==> exists|i: int|
            0 <= i < docsets.len() && (#[trigger] docsets[i]).contains(x),
    decreases docsets.len(),
{
    if docsets.len() > 0 {
        lemma_union_all_membership(docsets.drop_last(), x);
        if docsets.last().contains(x) {
            assert(docsets[docsets.len() - 1].contains(x));
        }
        if exists|i: int| 0 <= i < docsets.len() && (#[trigger] docsets[i]).contains(x) {
            let i = choose|i: int| 0 <= i < docsets.len() && (#[trigger] docsets[i]).contains(x);
            if i < docsets.len() - 1 {
                assert(docsets.drop_last()[i].contains(x));
            }
        }
    }
}

/// The documents of the segments assigned to group `g`.
pub open spec fn group_union<D>(docsets: Seq<Set<D>>, group_of: Seq<usize>, g: int) -> Set<D>
    decreases docsets.len(),
{
    if docsets.len() == 0 || docsets.len() != group_of.len() {
        Set::empty()
    } else {
        group_union(docsets.drop_last(), group_of.drop_last(), g).union(
            if group_of.last() == g {
                docsets.last()
            } else {
                Set::empty()
            },
        )
    }
}

/// The documents of all merged segments: the union over the groups.
pub open spec fn merged_union<D>(docsets: Seq<Set<D>>, group_of: Seq<usize>, num_groups: int) -> Set<
    D,
>
    decreases num_groups,
{
    if num_groups <= 0 {
        Set::empty()
    } else {
        merged_union(docsets, group_of, num_groups - 1).union(
            group_union(docsets, group_of, num_groups - 1),
        )
    }
}

proof fn lemma_group_union_membership<D>(docsets: Seq<Set<D>>, group_of: Seq<usize>, g: int, x: D)
    requires
        docsets.len() == group_of.len(),
    ensures
        group_union(docsets, group_of, g).contains(x) <==> exists|i: int|
            0 <= i < docsets.len() && group_of[i] == g && (#[trigger] docsets[i]).contains(x),
    decreases docsets.len(),
{
    if docsets.len() > 0 {
        lemma_group_union_membership(docsets.drop_last(), group_of.drop_last(), g, x);
        if group_of.last() == g && docsets.last().contains(x) {
            assert(group_of[docsets.len() - 1] == g && docsets[docsets.len() - 1].contains(x));
        }
        if exists|i: int|
            0 <= i < docsets.len() && group_of[i] == g && (#[trigger] docsets[i]).contains(x) {
            let i = choose|i: int|
                0 <= i < docsets.len() && group_of[i] == g && (#[trigger] docsets[i]).contains(x);
            if i < docsets.len() - 1 {
                assert(docsets.drop_last()[i].contains(x) && group_of.drop_last()[i] == g);
            }
        }
    }
}

proof fn lemma_merged_union_membership<D>(
    docsets: Seq<Set<D>>,
    group_of: Seq<usize>,
    num_groups: int,
    x: D,
)
    requires
        docsets.len() == group_of.len(),
    ensures
        merged_union(docsets, group_of, num_groups).contains(x) <==> exists|g: int|
            0 <= g < num_groups && (#[trigger] group_union(docsets, group_of, g)).contains(x),
    decreases num_groups,
{
    if num_groups > 0 {
        lemma_merged_union_membership(docsets, group_of, num_groups - 1, x);
    }
}

/// Merging the planned groups keeps every document: the union of the
/// merged groups' documents is the union of all segments' documents, for
/// any assignment of every segment to one of the groups.
pub proof fn lemma_merge_groups_preserve_docs<D>(
    docsets: Seq<Set<D>>,
    group_of: Seq<usize>,
    num_groups: int,
)
    requires
        group_of.len() == docsets.len(),
        forall|i: int| 0 <= i < group_of.len() ==> (#[trigger] group_of[i]) < num_groups,
    ensures
        merged_union(docsets, group_of, num_groups) == union_all(docsets),
{
    assert forall|x: D|
        merged_union(docsets, group_of, num_groups).contains(x) == union_all(docsets).contains(
            x,
        ) by {
        lemma_merged_union_membership(docsets, group_of, num_groups, x);
        lemma_union_all_membership(docsets, x);
        if union_all(docsets).contains(x) {
            let i = choose|i: int| 0 <= i < docsets.len() && (#[trigger] docsets[i]).contains(x);
            lemma_group_union_membership(docsets, group_of, group_of[i] as int, x);
        }
        if merged_union(docsets, group_of, num_groups).contains(x) {
            let g = choose|g: int|
                0 <= g < num_groups && (#[trigger] group_union(docsets, group_of, g)).contains(x);
            lemma_group_union_membership(docsets, group_of, g, x);
        }
    }
    assert(merged_union(docsets, group_of, num_groups) =~= union_all(docsets));
}

/// The documents of a list of segments, where `docs_of` gives the
/// documents a segment identifier stands for: equal identifiers always
/// name the same immutable segment, so they hold the same documents.
pub open spec fn union_by_id<D>(segs: Seq<SegmentMetaView>, docs_of: spec_fn(u128) -> Set<D>) -> Set<
    D,
>
    decreases segs.len(),
{
    if segs.len() == 0 {
        Set::empty()
    } else {
        union_by_id(segs.drop_last(), docs_of).union(docs_of(segs.last().id))
    }
}

proof fn lemma_union_by_id_membership<D>(
    segs: Seq<SegmentMetaView>,
    docs_of: spec_fn(u128) -> Set<D>,
    x: D,
)
    ensures
        union_by_id(segs, docs_of).contains(x) <==> exists|i: int|
            0 <= i < segs.len() && docs_of((#[trigger] segs[i]).id).contains(x),
    decreases segs.len(),
{
    if segs.len() > 0 {
        lemma_union_by_id_membership(segs.drop_last(), docs_of, x);
        if docs_of(segs.last().id).contains(x) {
            assert(docs_of(segs[segs.len() - 1].id).contains(x));
        }
        if exists|i: int| 0 <= i < segs.len() && docs_of((#[trigger] segs[i]).id).contains(x) {
            let i = choose|i: int|
                0 <= i < segs.len() && docs_of((#[trigger] segs[i]).id).contains(x);
            if i < segs.len() - 1 {
                assert(docs_of(segs.drop_last()[i].id).contains(x));
            }
        }
    }
}

/// Every moved segment is one of the incoming segments.
proof fn lemma_kept_subset(ours: Seq<SegmentMetaView>, others: Seq<SegmentMetaView>)
    ensures
        forall|k: int|
            0 <= k < kept_others(ours, others).len() ==> exists|j: int|
                0 <= j < others.len() && (#[trigger] kept_others(ours, others)[k]) == others[j],
    decreases others.len(),
{
    if others.len() > 0 {
        lemma_kept_subset(ours, others.drop_last());
        let kept = kept_others(ours, others);
        let kept_prev = kept_others(ours, others.drop_last());
        assert forall|k: int| 0 <= k < kept.len() implies exists|j: int|
            0 <= j < others.len() && (#[trigger] kept[k]) == others[j] by {
            if k < kept_prev.len() {
                assert(kept[k] == kept_prev[k]);
                let j = choose|j: int|
                    0 <= j < others.drop_last().len() && kept_prev[k] == others.drop_last()[j];
                assert(kept[k] == others[j]);
            } else {
                assert(kept[k] == others.last());
                assert(kept[k] == others[others.len() - 1]);
            }
        }
    }
}

/// A document of an incoming segment survives the merge: it sits in a
/// moved segment, or an already-present segment carries the same
/// identifier and so the same documents.
proof fn lemma_others_covered<D>(
    ours: Seq<SegmentMetaView>,
    others: Seq<SegmentMetaView>,
    docs_of: spec_fn(u128) -> Set<D>,
    x: D,
)
    requires
        exists|j: int| 0 <= j < others.len() && docs_of((#[trigger] others[j]).id).contains(x),
    ensures
        (exists|k: int|
            0 <= k < kept_others(ours, others).len() && docs_of(
                (#[trigger] kept_others(ours, others)[k]).id,
            ).contains(x)) || (exists|i: int|
            0 <= i < ours.len() && docs_of((#[trigger] ours[i]).id).contains(x)),
    decreases others.len(),
{
    let j = choose|j: int| 0 <= j < others.len() && docs_of((#[trigger] others[j]).id).contains(x);
    let kept = kept_others(ours, others);
    let kept_prev = kept_others(ours, others.drop_last());
    if j == others.len() - 1 {
        if has_id(ours, others.last().id) {
            let i = choose|i: int|
                0 <= i < ours.len() && (#[trigger] ours[i]).id == others.last().id;
            assert(docs_of(ours[i].id).contains(x));
        } else {
            assert(kept =~= kept_prev.push(others.last()));
            assert(kept[kept.len() - 1] == others.last());
            assert(docs_of(kept[kept.len() - 1].id).contains(x));
        }
    } else {
        assert(others.drop_last()[j] == others[j]);
        lemma_others_covered(ours, others.drop_last(), docs_of, x);
        if exists|k: int|
            0 <= k < kept_prev.len() && docs_of((#[trigger] kept_prev[k]).id).contains(x) {
            let k = choose|k: int|
                0 <= k < kept_prev.len() && docs_of((#[trigger] kept_prev[k]).id).contains(x);
            if has_id(ours, others.last().id) {
                assert(kept =~= kept_prev);
            } else {
                assert(kept =~= kept_prev.push(others.last()));
            }
            assert(kept[k] == kept_prev[k]);
            assert(docs_of(kept[k].id).contains(x));
        }
    }
}

/// Merging two indexes yields the same searchable documents as both held
/// together: segments skipped for an already-present identifier name the
/// same immutable segment, so nothing is lost and nothing is added.
pub proof fn lemma_merge_preserves_docs<D>(
    ours: Seq<SegmentMetaView>,
    others: Seq<SegmentMetaView>,
    docs_of: spec_fn(u128) -> Set<D>,
)
    ensures
        union_by_id(ours + kept_others(ours, others), docs_of) == union_by_id(
            ours,
            docs_of,
        ).union(union_by_id(others, docs_of)),
{
    let kept = kept_others(ours, others);
    let merged = ours + kept;
    assert forall|x: D|
        union_by_id(merged, docs_of).contains(x) == union_by_id(ours, docs_of).union(
            union_by_id(others, docs_of),
        ).contains(x) by {
        lemma_union_by_id_membership(merged, docs_of, x);
        lemma_union_by_id_membership(ours, docs_of, x);
        lemma_union_by_id_membership(others, docs_of, x);
        lemma_union_by_id_membership(kept, docs_of, x);
        if union_by_id(merged, docs_of).contains(x) {
            let i = choose|i: int|
                0 <= i < merged.len() && docs_of((#[trigger] merged[i]).id).contains(x);
            if i < ours.len() {
                assert(merged[i] == ours[i]);
            } else {
                assert(merged[i] == kept[i - ours.len()]);
                lemma_kept_subset(ours, others);
                let j = choose|j: int|
                    0 <= j < others.len() && (#[trigger] kept[i - ours.len()]) == others[j];
                assert(docs_of(others[j].id).contains(x));
            }
        }
        if union_by_id(ours, docs_of).contains(x) {
            let i = choose|i: int|
                0 <= i < ours.len() && docs_of((#[trigger] ours[i]).id).contains(x);
            assert(merged[i] == ours[i]);
            assert(docs_of(merged[i].id).contains(x));
        }
        if union_by_id(others, docs_of).contains(x) {
            lemma_others_covered(ours, others, docs_of, x);
            if exists|k: int|
                0 <= k < kept.len() && docs_of((#[trigger] kept[k]).id).contains(x) {
                let k = choose|k: int|
                    0 <= k < kept.len() && docs_of((#[trigger] kept[k]).id).contains(x);
                assert(merged[ours.len() + k] == kept[k]);
                assert(docs_of(merged[ours.len() + k].id).contains(x));
            } else {
                let i = choose|i: int|
                    0 <= i < ours.len() && docs_of((#[trigger] ours[i]).id).contains(x);
                assert(merged[i] == ours[i]);
                assert(docs_of(merged[i].id).contains(x));
            }
        }
    }
    assert(union_by_id(merged, docs_of) =~= union_by_id(ours, docs_of).union(
        union_by_id(others, docs_of),
    ));
}

proof fn lemma_swap_multiset(before: Seq<SegmentMeta>, after: Seq<SegmentMeta>, i: int, j: int)
    requires
        0 <= i < before.len(),
        0 <= j < before.len(),
        after =~= before.update(i, before[j]).update(j, before[i]),
    ensures
        after.to_multiset() == before.to_multiset(),
{
    let m1 = before.update(i, before[j]);
    if i == j {
        assert(after =~= before);
    } else {
        assert(m1[j] == before[j]);
        assert(m1.to_multiset() =~= before.to_multiset().remove(before[i]).insert(before[j]));
        assert(after.to_multiset() =~= m1.to_multiset().remove(m1[j]).insert(before[i]));
        assert(after.to_multiset() =~= before.to_multiset());
    }
}

} // verus!
