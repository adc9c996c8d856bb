//! Greedy hard non-maximum suppression: detections are walked in order of
//! falling score, each survivor suppressing every later detection whose
//! overlap with it exceeds the IoU threshold.
use vstd::prelude::*;

use crate::iou::{face_wf, iou_exceeds, spec_iou_exceeds, Face};

use vstd::seq_lib::lemma_multiset_commutative;

verus! {

/// Every detection in the sequence is within the coordinate bounds.
pub open spec fn faces_wf(s: Seq<Face>) -> bool {
    forall|i: int| 0 <= i < s.len() ==> face_wf(#[trigger] s[i])
}

/// An IoU threshold `tn / td` in [0, 1] with a denominator small enough
/// for exact comparison.
pub open spec fn thr_wf(tn: i64, td: i64) -> bool {
    0 <= tn <= td && 0 < td <= 0x10_0000
}

/// Scores never rise along the sequence.
pub open spec fn sorted_desc(s: Seq<Face>) -> bool {
    forall|i: int, j: int| 0 <= i <= j < s.len() ==> #[trigger] s[i].score >= #[trigger] s[j].score
}

/// `f` inserted into `s` after every element whose score is at least
/// `f.score`: the insertion step of a stable descending insertion sort.
pub open spec fn spec_insert_desc(f: Face, s: Seq<Face>) -> Seq<Face>
    decreases s.len(),
{
    if s.len() == 0 {
        seq![f]
    } else if f.score > s[0].score {
        seq![f] + s
    } else {
        seq![s[0]] + spec_insert_desc(f, s.drop_first())
    }
}

/// `s` stably sorted by score, descending: equal scores keep their
/// original order, so the result is a deterministic total order.
pub open spec fn spec_sort_desc(s: Seq<Face>) -> Seq<Face>
    decreases s.len(),
{
    if s.len() == 0 {
        Seq::empty()
    } else {
        spec_insert_desc(s.last(), spec_sort_desc(s.drop_last()))
    }
}

/// The elements of `s` that survive next to an accepted detection `h`:
/// those whose IoU with `h` does not exceed `tn / td`, in order.
pub open spec fn spec_keep(h: Face, s: Seq<Face>, tn: i64, td: i64) -> Seq<Face>
    decreases s.len(),
{
    if s.len() == 0 {
        Seq::empty()
    } else {
        let pre = spec_keep(h, s.drop_last(), tn, td);
        if spec_iou_exceeds(h, s.last(), tn, td) {
            pre
        } else {
            pre.push(s.last())
        }
    }
}

/// Keeping a subset never lengthens the sequence.
pub proof fn lemma_keep_len(h: Face, s: Seq<Face>, tn: i64, td: i64)
    ensures
        spec_keep(h, s, tn, td).len() <= s.len(),
    decreases s.len(),
{
    if s.len() > 0 {
        lemma_keep_len(h, s.drop_last(), tn, td);
    }
}

/// Every survivor of `spec_keep` is an element of the input and its IoU
/// with `h` does not exceed the threshold.
pub proof fn lemma_keep_elements(h: Face, s: Seq<Face>, tn: i64, td: i64)
    ensures
        forall|i: int|
            0 <= i < spec_keep(h, s, tn, td).len() ==> s.contains(
                #[trigger] spec_keep(h, s, tn, td)[i],
            ) && !spec_iou_exceeds(h, spec_keep(h, s, tn, td)[i], tn, td),
    decreases s.len(),
{
    if s.len() > 0 {
        lemma_keep_elements(h, s.drop_last(), tn, td);
        let pre = spec_keep(h, s.drop_last(), tn, td);
        let out = spec_keep(h, s, tn, td);
        assert forall|i: int| 0 <= i < out.len() implies s.contains(out[i]) && !spec_iou_exceeds(
            h,
            out[i],
            tn,
            td,
        ) by {
            if i < pre.len() {
                assert(s.drop_last().contains(pre[i]));
                let j = choose|j: int| 0 <= j < s.drop_last().len() && s.drop_last()[j] == pre[i];
                assert(s[j] == pre[i]);
            } else {
                assert(out[i] == s.last());
                assert(s[s.len() - 1] == s.last());
            }
        }
    }
}

/// When no element of `s` overlaps `h` above the threshold, keeping is the
/// identity.
pub proof fn lemma_keep_all(h: Face, s: Seq<Face>, tn: i64, td: i64)
    requires
        forall|i: int| 0 <= i < s.len() ==> !spec_iou_exceeds(h, #[trigger] s[i], tn, td),
    ensures
        spec_keep(h, s, tn, td) == s,
    decreases s.len(),
{
    if s.len() > 0 {
        assert(forall|i: int|
            0 <= i < s.drop_last().len() ==> !spec_iou_exceeds(
                h,
                #[trigger] s.drop_last()[i],
                tn,
                td,
            ));
        lemma_keep_all(h, s.drop_last(), tn, td);
        assert(!spec_iou_exceeds(h, s[s.len() - 1], tn, td));
        assert(spec_keep(h, s, tn, td) =~= s);
    }
}

/// Greedy suppression of a sequence already sorted by falling score: the
/// first detection is accepted, every later one overlapping it above the
/// threshold is discarded, and the rest is suppressed in turn.
pub open spec fn spec_nms(s: Seq<Face>, tn: i64, td: i64) -> Seq<Face>
    decreases s.len(),
    via spec_nms_decreases
{
    if s.len() == 0 {
        Seq::empty()
    } else {
        seq![s[0]] + spec_nms(spec_keep(s[0], s.drop_first(), tn, td), tn, td)
    }
}

#[via_fn]
proof fn spec_nms_decreases(s: Seq<Face>, tn: i64, td: i64) {
    if s.len() > 0 {
        lemma_keep_len(s[0], s.drop_first(), tn, td);
    }
}

/// The full suppression contract: sort by falling score (stable), then
/// greedily suppress. This is the exact value `hard_nms` returns.
pub open spec fn spec_suppress(s: Seq<Face>, tn: i64, td: i64) -> Seq<Face> {
    spec_nms(spec_sort_desc(s), tn, td)
}

/// Sorts `faces` by score, descending and stable, via insertion sort.
fn sort_faces_desc(faces: Vec<Face>) -> (r: Vec<Face>)
    ensures
        r@ == spec_sort_desc(faces@),
{
    let mut r: Vec<Face> = Vec::new();
    let n = faces.len();
    let mut i: usize = 0;
    assert(faces@.subrange(0, 0) =~= Seq::<Face>::empty());
    while i < n
        invariant
            i <= n,
            n == faces@.len(),
            r@ == spec_sort_desc(faces@.subrange(0, i as int)),
        decreases n - i,
    {
        let f = faces[i];
        r = insert_face_desc(r, f);
        proof {
            let pre = faces@.subrange(0, i as int);
            let cur = faces@.subrange(0, i + 1 as int);
            assert(cur.drop_last() =~= pre);
            assert(cur.last() == faces@[i as int]);
        }
        i = i + 1;
    }
    proof {
        assert(faces@.subrange(0, n as int) =~= faces@);
    }
    r
}

/// The split form of `spec_insert_desc`: inserting at the first position
/// whose element scores strictly below `f` keeps everything else in place.
proof fn lemma_insert_desc_split(f: Face, s: Seq<Face>, pos: int)
    requires
        0 <= pos <= s.len(),
        forall|k: int| 0 <= k < pos ==> f.score <= (#[trigger] s[k]).score,
        pos < s.len() ==> f.score > s[pos].score,
    ensures
        spec_insert_desc(f, s) == s.subrange(0, pos) + seq![f] + s.subrange(pos, s.len() as int),
    decreases s.len(),
{
    if s.len() == 0 {
        assert(spec_insert_desc(f, s) =~= s.subrange(0, pos) + seq![f] + s.subrange(
            pos,
            s.len() as int,
        ));
    } else if pos == 0 {
        assert(f.score > s[0].score);
        assert(spec_insert_desc(f, s) =~= s.subrange(0, pos) + seq![f] + s.subrange(
            pos,
            s.len() as int,
        ));
    } else {
        assert(f.score <= s[0].score);
        let t = s.drop_first();
        assert(forall|k: int| 0 <= k < pos - 1 ==> f.score <= (#[trigger] t[k]).score);
        lemma_insert_desc_split(f, t, pos - 1);
        assert(spec_insert_desc(f, s) =~= s.subrange(0, pos) + seq![f] + s.subrange(
            pos,
            s.len() as int,
        ));
    }
}

/// Inserts `f` after every element scoring at least `f.score`.
fn insert_face_desc(v: Vec<Face>, f: Face) -> (r: Vec<Face>)
    ensures
        r@ == spec_insert_desc(f, v@),
{
    let n = v.len();
    let mut pos: usize = 0;
    while pos < n && f.score <= v[pos].score
        invariant
            pos <= n,
            n == v@.len(),
            forall|k: int| 0 <= k < pos ==> f.score <= (#[trigger] v@[k]).score,
        decreases n - pos,
    {
        pos = pos + 1;
    }
    proof {
        lemma_insert_desc_split(f, v@, pos as int);
    }
    let mut r = v;
    r.insert(pos, f);
    proof {
        assert(r@ =~= v@.subrange(0, pos as int) + seq![f] + v@.subrange(
            pos as int,
            v@.len() as int,
        ));
    }
    r
}

/// Greedy hard non-maximum suppression. Sorts the detections by score,
/// descending (stable, so equal scores keep their input order), walks the
/// sorted list, accepts each surviving detection and discards every later
/// one whose IoU with it exceeds `tn / td`. Returns the accepted
/// detections in descending-score order.
pub fn hard_nms(faces: Vec<Face>, tn: i64, td: i64) -> (r: Vec<Face>)
    requires
        faces_wf(faces@),
        thr_wf(tn, td),
    ensures
        r@ == spec_suppress(faces@, tn, td),
        faces_wf(r@),
{
    let sorted = sort_faces_desc(faces);
    proof {
        lemma_sort_desc_wf(faces@);
    }
    let mut rem = sorted;
    let mut out: Vec<Face> = Vec::new();
    while rem.len() > 0
        invariant
            faces_wf(rem@),
            faces_wf(out@),
            thr_wf(tn, td),
            out@ + spec_nms(rem@, tn, td) == spec_suppress(faces@, tn, td),
        decreases rem@.len(),
    {
        let head = rem[0];
        let ghost rem0 = rem@;
        let mut kept: Vec<Face> = Vec::new();
        let mut j: usize = 1;
        assert(rem0.subrange(1, 1) =~= Seq::<Face>::empty());
        while j < rem.len()
            invariant
                1 <= j <= rem@.len(),
                rem@ == rem0,
                rem0.len() > 0,
                faces_wf(rem@),
                thr_wf(tn, td),
                head == rem0[0],
                kept@ == spec_keep(head, rem0.subrange(1, j as int), tn, td),
            decreases rem@.len() - j,
        {
            let cand = rem[j];
            if !iou_exceeds(&head, &cand, tn, td) {
                kept.push(cand);
            }
            proof {
                let pre = rem0.subrange(1, j as int);
                let cur = rem0.subrange(1, j + 1 as int);
                assert(cur.drop_last() =~= pre);
                assert(cur.last() == rem0[j as int]);
            }
            j = j + 1;
        }
        proof {
            assert(rem0.subrange(1, rem0.len() as int) =~= rem0.drop_first());
            lemma_keep_len(head, rem0.drop_first(), tn, td);
            lemma_keep_elements(head, rem0.drop_first(), tn, td);
            assert forall|i: int| 0 <= i < kept@.len() implies face_wf(#[trigger] kept@[i]) by {
                assert(rem0.drop_first().contains(kept@[i]));
                let k = choose|k: int|
                    0 <= k < rem0.drop_first().len() && rem0.drop_first()[k] == kept@[i];
                assert(rem0[k + 1] == kept@[i]);
            }
            assert(spec_nms(rem0, tn, td) == seq![head] + spec_nms(kept@, tn, td));
            assert((out@ + seq![head]) + spec_nms(kept@, tn, td) =~= out@ + (seq![head]
                + spec_nms(kept@, tn, td)));
        }
        out.push(head);
        rem = kept;
    }
    proof {
        assert(out@ + spec_nms(rem@, tn, td) =~= out@);
    }
    out
}

/// Every element of an insertion is the inserted detection or one of the
/// original elements.
proof fn lemma_insert_desc_elements(f: Face, s: Seq<Face>)
    ensures
        forall|i: int|
            0 <= i < spec_insert_desc(f, s).len() ==> #[trigger] spec_insert_desc(f, s)[i] == f
                || s.contains(spec_insert_desc(f, s)[i]),
    decreases s.len(),
{
    if s.len() > 0 && !(f.score > s[0].score) {
        let t = s.drop_first();
        lemma_insert_desc_elements(f, t);
        let out = spec_insert_desc(f, s);
        assert forall|i: int| 0 <= i < out.len() implies #[trigger] out[i] == f || s.contains(
            out[i],
        ) by {
            if i > 0 {
                let x = spec_insert_desc(f, t)[i - 1];
                assert(out[i] == x);
                if x != f {
                    let k = choose|k: int| 0 <= k < t.len() && t[k] == x;
                    assert(s[k + 1] == x);
                }
            } else {
                assert(s[0] == out[0]);
            }
        }
    }
}

/// Inserting into a sorted sequence keeps it sorted.
proof fn lemma_insert_desc_sorted(f: Face, s: Seq<Face>)
    requires
        sorted_desc(s),
    ensures
        sorted_desc(spec_insert_desc(f, s)),
    decreases s.len(),
{
    if s.len() == 0 {
    } else if f.score > s[0].score {
    } else {
        let t = s.drop_first();
        assert(sorted_desc(t));
        lemma_insert_desc_sorted(f, t);
        lemma_insert_desc_elements(f, t);
        let out = spec_insert_desc(f, s);
        let sub = spec_insert_desc(f, t);
        assert forall|i: int, j: int| 0 <= i <= j < out.len() implies #[trigger] out[i].score
            >= #[trigger] out[j].score by {
            if i == 0 && j > 0 {
                let x = sub[j - 1];
                assert(out[j] == x);
                if x == f {
                    assert(s[0].score >= f.score);
                } else {
                    let k = choose|k: int| 0 <= k < t.len() && t[k] == x;
                    assert(s[k + 1] == x);
                    assert(s[0].score >= s[k + 1].score);
                }
            } else if i > 0 {
                assert(out[i] == sub[i - 1] && out[j] == sub[j - 1]);
            }
        }
    }
}

/// The stable sort really sorts: its result is in descending score order.
pub proof fn lemma_sort_desc_sorted(s: Seq<Face>)
    ensures
        sorted_desc(spec_sort_desc(s)),
    decreases s.len(),
{
    if s.len() > 0 {
        lemma_sort_desc_sorted(s.drop_last());
        lemma_insert_desc_sorted(s.last(), spec_sort_desc(s.drop_last()));
    }
}

/// Inserting a detection scoring no more than every element appends it.
proof fn lemma_insert_desc_ge_all(f: Face, s: Seq<Face>)
    requires
        forall|i: int| 0 <= i < s.len() ==> (#[trigger] s[i]).score >= f.score,
    ensures
        spec_insert_desc(f, s) == s.push(f),
    decreases s.len(),
{
    if s.len() == 0 {
        assert(spec_insert_desc(f, s) =~= s.push(f));
    } else {
        assert(!(f.score > s[0].score));
        let t = s.drop_first();
        lemma_insert_desc_ge_all(f, t);
        assert(spec_insert_desc(f, s) =~= s.push(f));
    }
}

/// Sorting an already sorted sequence changes nothing.
pub proof fn lemma_sort_desc_of_sorted(s: Seq<Face>)
    requires
        sorted_desc(s),
    ensures
        spec_sort_desc(s) == s,
    decreases s.len(),
{
    if s.len() > 0 {
        assert(sorted_desc(s.drop_last()));
        lemma_sort_desc_of_sorted(s.drop_last());
        assert(forall|i: int|
            0 <= i < s.drop_last().len() ==> (#[trigger] s.drop_last()[i]).score
                >= s.last().score);
        lemma_insert_desc_ge_all(s.last(), s.drop_last());
        assert(s.drop_last().push(s.last()) =~= s);
    }
}

/// Every accepted detection is one of the candidates.
pub proof fn lemma_nms_elements(s: Seq<Face>, tn: i64, td: i64)
    ensures
        forall|i: int|
            0 <= i < spec_nms(s, tn, td).len() ==> s.contains(#[trigger] spec_nms(s, tn, td)[i]),
    decreases s.len(),
{
    if s.len() > 0 {
        let h = s[0];
        let f = spec_keep(h, s.drop_first(), tn, td);
        lemma_keep_len(h, s.drop_first(), tn, td);
        lemma_keep_elements(h, s.drop_first(), tn, td);
        lemma_nms_elements(f, tn, td);
        let out = spec_nms(s, tn, td);
        assert forall|i: int| 0 <= i < out.len() implies s.contains(#[trigger] out[i]) by {
            if i == 0 {
                assert(out[0] == s[0]);
            } else {
                let x = spec_nms(f, tn, td)[i - 1];
                assert(out[i] == x);
                assert(f.contains(x));
                let k = choose|k: int| 0 <= k < f.len() && f[k] == x;
                assert(s.drop_first().contains(x));
                let m = choose|m: int| 0 <= m < s.drop_first().len() && s.drop_first()[m] == x;
                assert(s[m + 1] == x);
            }
        }
    }
}

/// Keeping the survivors of a sorted sequence keeps it sorted.
proof fn lemma_keep_sorted(h: Face, s: Seq<Face>, tn: i64, td: i64)
    requires
        sorted_desc(s),
    ensures
        sorted_desc(spec_keep(h, s, tn, td)),
    decreases s.len(),
{
    if s.len() > 0 {
        assert(sorted_desc(s.drop_last()));
        lemma_keep_sorted(h, s.drop_last(), tn, td);
        lemma_keep_elements(h, s.drop_last(), tn, td);
        let pre = spec_keep(h, s.drop_last(), tn, td);
        let out = spec_keep(h, s, tn, td);
        if !spec_iou_exceeds(h, s.last(), tn, td) {
            assert forall|i: int, j: int| 0 <= i <= j < out.len() implies #[trigger] out[i].score
                >= #[trigger] out[j].score by {
                if j == out.len() - 1 && i < j {
                    let x = pre[i];
                    assert(s.drop_last().contains(x));
                    let k = choose|k: int|
                        0 <= k < s.drop_last().len() && s.drop_last()[k] == x;
                    assert(s[k] == x);
                    assert(s[k].score >= s[s.len() - 1].score);
                } else if j < out.len() - 1 {
                    assert(out[i] == pre[i] && out[j] == pre[j]);
                }
            }
        }
    }
}

/// Suppressing a sorted sequence yields a sorted sequence.
pub proof fn lemma_nms_sorted(s: Seq<Face>, tn: i64, td: i64)
    requires
        sorted_desc(s),
    ensures
        sorted_desc(spec_nms(s, tn, td)),
    decreases s.len(),
{
    if s.len() > 0 {
        let h = s[0];
        let t = s.drop_first();
        assert(sorted_desc(t));
        let f = spec_keep(h, t, tn, td);
        lemma_keep_len(h, t, tn, td);
        lemma_keep_sorted(h, t, tn, td);
        lemma_nms_sorted(f, tn, td);
        lemma_nms_elements(f, tn, td);
        lemma_keep_elements(h, t, tn, td);
        let rest = spec_nms(f, tn, td);
        let out = spec_nms(s, tn, td);
        assert forall|i: int, j: int| 0 <= i <= j < out.len() implies #[trigger] out[i].score
            >= #[trigger] out[j].score by {
            if i == 0 && j > 0 {
                let x = rest[j - 1];
                assert(out[j] == x);
                assert(f.contains(x));
                let k = choose|k: int| 0 <= k < f.len() && f[k] == x;
                assert(t.contains(f[k]));
                let m = choose|m: int| 0 <= m < t.len() && t[m] == x;
                assert(s[m + 1] == x);
                assert(s[0].score >= s[m + 1].score);
            } else if i > 0 {
                assert(out[i] == rest[i - 1] && out[j] == rest[j - 1]);
            }
        }
    }
}

/// Suppression is a fixed point on its own output: suppressing the
/// survivors again removes nothing further.
proof fn lemma_nms_fixed(s: Seq<Face>, tn: i64, td: i64)
    ensures
        spec_nms(spec_nms(s, tn, td), tn, td) == spec_nms(s, tn, td),
    decreases s.len(),
{
    if s.len() > 0 {
        let h = s[0];
        let t = s.drop_first();
        let f = spec_keep(h, t, tn, td);
        lemma_keep_len(h, t, tn, td);
        lemma_keep_elements(h, t, tn, td);
        lemma_nms_fixed(f, tn, td);
        let rest = spec_nms(f, tn, td);
        let out = spec_nms(s, tn, td);
        assert(out == seq![h] + rest);
        assert(out.len() > 0 && out[0] == h);
        assert(out.drop_first() =~= rest);
        lemma_nms_elements(f, tn, td);
        assert forall|i: int| 0 <= i < rest.len() implies !spec_iou_exceeds(
            h,
            #[trigger] rest[i],
            tn,
            td,
        ) by {
            assert(f.contains(rest[i]));
            let k = choose|k: int| 0 <= k < f.len() && f[k] == rest[i];
            assert(!spec_iou_exceeds(h, f[k], tn, td));
        }
        lemma_keep_all(h, rest, tn, td);
        assert(spec_nms(out, tn, td) == seq![h] + spec_nms(rest, tn, td));
        assert(spec_nms(rest, tn, td) == rest);
    }
}

/// Suppression is idempotent: running `hard_nms` on its own output with
/// the same threshold returns that output unchanged.
pub proof fn lemma_suppress_idempotent(s: Seq<Face>, tn: i64, td: i64)
    ensures
        spec_suppress(spec_suppress(s, tn, td), tn, td) == spec_suppress(s, tn, td),
{
    let out = spec_suppress(s, tn, td);
    lemma_sort_desc_sorted(s);
    lemma_nms_sorted(spec_sort_desc(s), tn, td);
    lemma_sort_desc_of_sorted(out);
    lemma_nms_fixed(spec_sort_desc(s), tn, td);
}

/// No two detections share a score: the tie-break never comes into play.
pub open spec fn distinct_scores(s: Seq<Face>) -> bool {
    forall|i: int, j: int|
        0 <= i < j < s.len() ==> (#[trigger] s[i]).score != (#[trigger] s[j]).score
}

/// Inserting a detection adds exactly it to the multiset of detections.
proof fn lemma_insert_desc_multiset(f: Face, s: Seq<Face>)
    ensures
        spec_insert_desc(f, s).to_multiset() == s.to_multiset().insert(f),
    decreases s.len(),
{
    broadcast use vstd::seq_lib::group_to_multiset_ensures;
    broadcast use vstd::multiset::group_multiset_axioms;

    if s.len() == 0 {
        assert(seq![f] =~= s.push(f));
    } else if f.score > s[0].score {
        lemma_multiset_commutative(seq![f], s);
        assert(seq![f] =~= Seq::<Face>::empty().push(f));
        assert forall|a: Face| #[trigger] (seq![f] + s).to_multiset().count(a) == s.to_multiset().insert(
            f,
        ).count(a) by {
            assert(!Seq::<Face>::empty().contains(a));
        }
        assert((seq![f] + s).to_multiset() =~= s.to_multiset().insert(f));
    } else {
        let t = s.drop_first();
        lemma_insert_desc_multiset(f, t);
        lemma_multiset_commutative(seq![s[0]], spec_insert_desc(f, t));
        lemma_multiset_commutative(seq![s[0]], t);
        assert(s =~= seq![s[0]] + t);
        assert(spec_insert_desc(f, s) == seq![s[0]] + spec_insert_desc(f, t));
        assert forall|a: Face| #[trigger] spec_insert_desc(f, s).to_multiset().count(a)
            == s.to_multiset().insert(f).count(a) by {}
        assert(spec_insert_desc(f, s).to_multiset() =~= s.to_multiset().insert(f));
    }
}

/// Sorting keeps the multiset of detections.
pub proof fn lemma_sort_desc_multiset(s: Seq<Face>)
    ensures
        spec_sort_desc(s).to_multiset() == s.to_multiset(),
    decreases s.len(),
{
    broadcast use vstd::seq_lib::group_to_multiset_ensures;

    if s.len() > 0 {
        lemma_sort_desc_multiset(s.drop_last());
        lemma_insert_desc_multiset(s.last(), spec_sort_desc(s.drop_last()));
        assert(s.drop_last().push(s.last()) =~= s);
    }
}

/// Distinct scores are a property of the multiset: any rearrangement of
/// the same detections also has pairwise distinct scores.
proof fn lemma_distinct_scores_transfer(s: Seq<Face>, t: Seq<Face>)
    requires
        s.to_multiset() == t.to_multiset(),
        distinct_scores(s),
    ensures
        distinct_scores(t),
{
    broadcast use vstd::seq_lib::group_to_multiset_ensures;
    broadcast use vstd::multiset::group_multiset_axioms;

    assert forall|i: int, j: int| 0 <= i < j < t.len() implies (#[trigger] t[i]).score
        != (#[trigger] t[j]).score by {
        if t[i].score == t[j].score {
            if t[i] == t[j] {
                let x = t[i];
                let t0 = t.subrange(0, j);
                let t1 = t.subrange(j, t.len() as int);
                assert(t =~= t0 + t1);
                lemma_multiset_commutative(t0, t1);
                assert(t0[i] == x && t1[0] == x);
                assert(t0.contains(x) && t1.contains(x));
                assert(t.to_multiset().count(x) >= 2);
                assert(s.contains(x));
                let a = choose|a: int| 0 <= a < s.len() && s[a] == x;
                assert(s.remove(a).to_multiset() =~= s.to_multiset().remove(s[a]));
                assert(s.remove(a).to_multiset().count(x) >= 1);
                assert(s.remove(a).contains(x));
                let k = choose|k: int| 0 <= k < s.remove(a).len() && s.remove(a)[k] == x;
                if k < a {
                    assert(s[k] == x && s[a] == x && k < a);
                } else {
                    assert(s[k + 1] == x && s[a] == x && a < k + 1);
                }
            } else {
                assert(s.to_multiset().count(t[i]) > 0 && s.to_multiset().count(t[j]) > 0);
                assert(s.contains(t[i]) && s.contains(t[j]));
                let a = choose|a: int| 0 <= a < s.len() && s[a] == t[i];
                let b = choose|b: int| 0 <= b < s.len() && s[b] == t[j];
                assert(a != b && s[a].score == s[b].score);
            }
        }
    }
}

/// Two sorted sequences of the same detections with pairwise distinct
/// scores are identical.
proof fn lemma_sorted_distinct_unique(s1: Seq<Face>, s2: Seq<Face>)
    requires
        sorted_desc(s1),
        sorted_desc(s2),
        distinct_scores(s1),
        s1.to_multiset() == s2.to_multiset(),
    ensures
        s1 == s2,
    decreases s1.len(),
{
    broadcast use vstd::seq_lib::group_to_multiset_ensures;
    broadcast use vstd::multiset::group_multiset_axioms;

    assert(s1.len() == s1.to_multiset().len());
    assert(s2.len() == s2.to_multiset().len());
    assert(s1.len() == s2.len());
    if s1.len() == 0 {
        assert(s1 =~= s2);
    } else {
        assert(s1.contains(s1[0]) && s2.contains(s2[0]));
        assert(s2.to_multiset().count(s1[0]) > 0);
        assert(s2.contains(s1[0]));
        let j = choose|j: int| 0 <= j < s2.len() && s2[j] == s1[0];
        assert(s1.to_multiset().count(s2[0]) > 0);
        assert(s1.contains(s2[0]));
        let i = choose|i: int| 0 <= i < s1.len() && s1[i] == s2[0];
        assert(s1[0].score >= s1[i].score);
        assert(s2[0].score >= s2[j].score);
        assert(s1[0].score == s2[0].score);
        if i != 0 {
            assert(s1[0].score != s1[i].score);
        }
        assert(s2[0] == s1[0]);
        let t1 = s1.drop_first();
        let t2 = s2.drop_first();
        assert(s1.remove(0) =~= t1);
        assert(s2.remove(0) =~= t2);
        assert(t1.to_multiset() =~= s1.to_multiset().remove(s1[0]));
        assert(t2.to_multiset() =~= s2.to_multiset().remove(s2[0]));
        assert(t1.to_multiset() == t2.to_multiset());
        assert(sorted_desc(t1) && sorted_desc(t2));
        assert(distinct_scores(t1));
        lemma_sorted_distinct_unique(t1, t2);
        assert forall|k: int| 0 <= k < s1.len() implies s1[k] == s2[k] by {
            if k > 0 {
                assert(s1[k] == t1[k - 1]);
                assert(s2[k] == t2[k - 1]);
            }
        }
        assert(s1 =~= s2);
    }
}

/// Suppression is order-independent: for detections with pairwise
/// distinct scores, any rearrangement of the input yields the identical
/// output. (With equal scores the stable tie-break depends on the input
/// order, so those are excluded.)
pub proof fn lemma_suppress_permutation_invariant(s1: Seq<Face>, s2: Seq<Face>, tn: i64, td: i64)
    requires
        s1.to_multiset() == s2.to_multiset(),
        distinct_scores(s1),
    ensures
        spec_suppress(s1, tn, td) == spec_suppress(s2, tn, td),
{
    lemma_sort_desc_multiset(s1);
    lemma_sort_desc_multiset(s2);
    lemma_sort_desc_sorted(s1);
    lemma_sort_desc_sorted(s2);
    lemma_distinct_scores_transfer(s1, spec_sort_desc(s1));
    lemma_sorted_distinct_unique(spec_sort_desc(s1), spec_sort_desc(s2));
}

/// Suppression is a function of its inputs alone: two results of the same
/// detections and threshold are equal.
pub proof fn lemma_suppress_deterministic(
    s: Seq<Face>,
    tn: i64,
    td: i64,
    r1: Seq<Face>,
    r2: Seq<Face>,
)
    requires
        r1 == spec_suppress(s, tn, td),
        r2 == spec_suppress(s, tn, td),
    ensures
        r1 == r2,
{
}

/// For at most two detections, raising the IoU threshold never shrinks the
/// set of survivors. (With three or more detections this can fail: a box
/// kept only at the higher threshold may itself suppress several others.)
pub proof fn lemma_suppress_monotone_pair(
    s: Seq<Face>,
    tn1: i64,
    td1: i64,
    tn2: i64,
    td2: i64,
)
    requires
        s.len() <= 2,
        thr_wf(tn1, td1),
        thr_wf(tn2, td2),
        tn1 * td2 <= tn2 * td1,
    ensures
        spec_suppress(s, tn1, td1).len() <= spec_suppress(s, tn2, td2).len(),
{
    if s.len() == 0 {
        assert(spec_sort_desc(s) =~= Seq::<Face>::empty());
    } else if s.len() == 1 {
        lemma_sort_desc_sorted(s);
        lemma_sort_desc_wf_len(s);
        let ss = spec_sort_desc(s);
        assert(ss.len() == 1);
        lemma_nms_single(ss, tn1, td1);
        lemma_nms_single(ss, tn2, td2);
    } else {
        lemma_sort_desc_wf_len(s);
        let ss = spec_sort_desc(s);
        assert(ss.len() == 2);
        lemma_nms_pair(ss, tn1, td1);
        lemma_nms_pair(ss, tn2, td2);
        if spec_iou_exceeds(ss[0], ss[1], tn2, td2) {
            crate::iou::lemma_iou_exceeds_monotone(ss[0], ss[1], tn1, td1, tn2, td2);
        }
    }
}

/// The sort keeps the number of detections.
proof fn lemma_sort_desc_wf_len(s: Seq<Face>)
    ensures
        spec_sort_desc(s).len() == s.len(),
    decreases s.len(),
{
    if s.len() > 0 {
        lemma_sort_desc_wf_len(s.drop_last());
        lemma_insert_desc_len(s.last(), spec_sort_desc(s.drop_last()));
    }
}

proof fn lemma_insert_desc_len(f: Face, s: Seq<Face>)
    ensures
        spec_insert_desc(f, s).len() == s.len() + 1,
    decreases s.len(),
{
    if s.len() > 0 && !(f.score > s[0].score) {
        lemma_insert_desc_len(f, s.drop_first());
    }
}

/// Suppressing a single detection keeps it.
proof fn lemma_nms_single(s: Seq<Face>, tn: i64, td: i64)
    requires
        s.len() == 1,
    ensures
        spec_nms(s, tn, td).len() == 1,
{
    assert(s.drop_first() =~= Seq::<Face>::empty());
    assert(spec_keep(s[0], s.drop_first(), tn, td) =~= Seq::<Face>::empty());
    assert(spec_nms(Seq::<Face>::empty(), tn, td) =~= Seq::<Face>::empty());
}

/// Suppressing a pair keeps the first and keeps the second exactly when
/// their overlap does not exceed the threshold.
proof fn lemma_nms_pair(s: Seq<Face>, tn: i64, td: i64)
    requires
        s.len() == 2,
    ensures
        spec_nms(s, tn, td).len() == if spec_iou_exceeds(s[0], s[1], tn, td) {
            1int
        } else {
            2int
        },
{
    let t = s.drop_first();
    assert(t.len() == 1 && t[0] == s[1]);
    assert(t.drop_last() =~= Seq::<Face>::empty());
    assert(spec_keep(s[0], t.drop_last(), tn, td) =~= Seq::<Face>::empty());
    let f = spec_keep(s[0], t, tn, td);
    if spec_iou_exceeds(s[0], t.last(), tn, td) {
        assert(f =~= Seq::<Face>::empty());
        assert(spec_nms(f, tn, td) =~= Seq::<Face>::empty());
    } else {
        assert(f =~= seq![s[1]]);
        lemma_nms_single(f, tn, td);
    }
}

/// Every element of the sorted sequence is an element of the input.
pub proof fn lemma_sort_desc_elements(s: Seq<Face>)
    ensures
        forall|i: int|
            0 <= i < spec_sort_desc(s).len() ==> s.contains(#[trigger] spec_sort_desc(s)[i]),
    decreases s.len(),
{
    if s.len() > 0 {
        lemma_sort_desc_elements(s.drop_last());
        lemma_insert_desc_elements(s.last(), spec_sort_desc(s.drop_last()));
        let out = spec_sort_desc(s);
        assert forall|i: int| 0 <= i < out.len() implies s.contains(#[trigger] out[i]) by {
            if out[i] == s.last() {
                assert(s[s.len() - 1] == s.last());
            } else {
                assert(spec_sort_desc(s.drop_last()).contains(out[i]));
                let k = choose|k: int|
                    0 <= k < spec_sort_desc(s.drop_last()).len() && spec_sort_desc(s.drop_last())[k]
                        == out[i];
                assert(s.drop_last().contains(spec_sort_desc(s.drop_last())[k]));
                let m = choose|m: int|
                    0 <= m < s.drop_last().len() && s.drop_last()[m] == out[i];
                assert(s[m] == out[i]);
            }
        }
    }
}

/// Every survivor of suppression is one of the input detections.
pub proof fn lemma_suppress_elements(s: Seq<Face>, tn: i64, td: i64)
    ensures
        forall|i: int|
            0 <= i < spec_suppress(s, tn, td).len() ==> s.contains(
                #[trigger] spec_suppress(s, tn, td)[i],
            ),
{
    lemma_sort_desc_elements(s);
    lemma_nms_elements(spec_sort_desc(s), tn, td);
    let out = spec_suppress(s, tn, td);
    let ss = spec_sort_desc(s);
    assert forall|i: int| 0 <= i < out.len() implies s.contains(#[trigger] out[i]) by {
        assert(ss.contains(out[i]));
        let k = choose|k: int| 0 <= k < ss.len() && ss[k] == out[i];
        assert(s.contains(ss[k]));
        let m = choose|m: int| 0 <= m < s.len() && s[m] == out[i];
    }
}

/// Stable sorting keeps every detection within bounds.
proof fn lemma_insert_desc_wf(f: Face, s: Seq<Face>)
    requires
        face_wf(f),
        faces_wf(s),
    ensures
        faces_wf(spec_insert_desc(f, s)),
        spec_insert_desc(f, s).len() == s.len() + 1,
    decreases s.len(),
{
    if s.len() > 0 && !(f.score > s[0].score) {
        assert(faces_wf(s.drop_first()));
        lemma_insert_desc_wf(f, s.drop_first());
        let out = spec_insert_desc(f, s);
        assert forall|i: int| 0 <= i < out.len() implies face_wf(#[trigger] out[i]) by {
            if i > 0 {
                assert(out[i] == spec_insert_desc(f, s.drop_first())[i - 1]);
            }
        }
    }
}

/// Sorting keeps every detection within bounds.
proof fn lemma_sort_desc_wf(s: Seq<Face>)
    requires
        faces_wf(s),
    ensures
        faces_wf(spec_sort_desc(s)),
        spec_sort_desc(s).len() == s.len(),
    decreases s.len(),
{
    if s.len() > 0 {
        assert(faces_wf(s.drop_last()));
        lemma_sort_desc_wf(s.drop_last());
        lemma_insert_desc_wf(s.last(), spec_sort_desc(s.drop_last()));
    }
}

} // verus!
