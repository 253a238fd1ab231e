//! Greedy non-maximum suppression of overlapping detections.
//!
//! Candidates are taken in order of descending confidence; a candidate is
//! kept exactly when its IoU with every already-kept box stays within the
//! threshold.  This is the classic greedy scheme: a box is ever suppressed
//! only by a *kept* box of confidence at least its own.

use vstd::prelude::*;
use crate::blocks::LayoutBlock;
use crate::geom::{iou_exceeds, spec_iou_exceeds, lemma_iou_symmetric};

verus! {

/// Every block of the sequence is well formed.
pub open spec fn blocks_wf(s: Seq<LayoutBlock>) -> bool {
    forall|i: int| 0 <= i < s.len() ==> (#[trigger] s[i]).wf()
}

/// Confidences are non-increasing along the sequence.
pub open spec fn sorted_by_confidence_desc(s: Seq<LayoutBlock>) -> bool {
    forall|i: int, j: int| 0 <= i <= j < s.len()
        ==> #[trigger] s[i].confidence >= #[trigger] s[j].confidence
}

/// No two distinct members of `s` overlap beyond the `num / den` IoU
/// threshold.
pub open spec fn pairwise_within_iou(s: Seq<LayoutBlock>, num: i64, den: i64) -> bool {
    forall|p: int, q: int| 0 <= p < s.len() && 0 <= q < s.len() && p != q
        ==> !spec_iou_exceeds(#[trigger] s[p].bbox, #[trigger] s[q].bbox, num, den)
}

/// Some member of `kept` has confidence at least `b`'s and overlaps `b`
/// beyond the threshold: `b` is accounted for by a surviving box.
pub open spec fn suppressed_by(kept: Seq<LayoutBlock>, b: LayoutBlock, num: i64, den: i64) -> bool {
    exists|k: int| 0 <= k < kept.len()
        && (#[trigger] kept[k]).confidence >= b.confidence
        && spec_iou_exceeds(kept[k].bbox, b.bbox, num, den)
}

/// Some already-kept box overlaps `b` beyond the `num / den` threshold.
pub open spec fn spec_overlaps_kept(kept: Seq<LayoutBlock>, b: LayoutBlock, num: i64, den: i64) -> bool {
    exists|k: int| 0 <= k < kept.len()
        && spec_iou_exceeds((#[trigger] kept[k]).bbox, b.bbox, num, den)
}

/// Position of the first candidate of maximal confidence (the stable
/// tie-break: among equals, the earliest wins).
pub open spec fn spec_first_max_index(s: Seq<LayoutBlock>) -> int
    decreases s.len(),
{
    if s.len() <= 1 {
        0
    } else {
        let rest = spec_first_max_index(s.drop_first()) + 1;
        if s[0].confidence >= s[rest].confidence {
            0
        } else {
            rest
        }
    }
}

/// The first-maximum position is in range, holds a maximal confidence,
/// and everything before it is strictly smaller.
pub proof fn lemma_first_max_index_props(s: Seq<LayoutBlock>)
    requires
        s.len() > 0,
    ensures
        ({
            let m = spec_first_max_index(s);
            &&& 0 <= m < s.len()
            &&& forall|k: int| 0 <= k < s.len()
                ==> (#[trigger] s[k]).confidence <= s[m].confidence
            &&& forall|k: int| 0 <= k < m
                ==> (#[trigger] s[k]).confidence < s[m].confidence
        }),
    decreases s.len(),
{
    if s.len() > 1 {
        let tail = s.drop_first();
        lemma_first_max_index_props(tail);
        let tm = spec_first_max_index(tail);
        assert forall|k: int| 0 <= k < s.len()
            implies (#[trigger] s[k]).confidence <= s[spec_first_max_index(s)].confidence by {
            if k > 0 {
                assert(s[k] == tail[k - 1]);
            }
        }
        assert forall|k: int| 0 <= k < spec_first_max_index(s)
            implies (#[trigger] s[k]).confidence < s[spec_first_max_index(s)].confidence by {
            if k > 0 {
                assert(s[k] == tail[k - 1]);
            }
        }
    }
}

/// The exact sequence greedy suppression produces: candidates are taken in
/// descending confidence (first maximum first, so equal confidences keep
/// their input order) and appended to `kept` when they stay within the IoU
/// threshold of everything kept so far.
pub open spec fn spec_nms_rec(rest: Seq<LayoutBlock>, num: i64, den: i64, kept: Seq<LayoutBlock>) -> Seq<LayoutBlock>
    decreases rest.len(),
{
    if rest.len() == 0 {
        kept
    } else {
        let m = spec_first_max_index(rest);
        if 0 <= m < rest.len() {
            let b = rest[m];
            let kept2 = if spec_overlaps_kept(kept, b, num, den) {
                kept
            } else {
                kept.push(b)
            };
            spec_nms_rec(rest.remove(m), num, den, kept2)
        } else {
            kept
        }
    }
}

/// The survivor sequence of greedy non-maximum suppression.
pub open spec fn spec_nms(blocks: Seq<LayoutBlock>, num: i64, den: i64) -> Seq<LayoutBlock> {
    spec_nms_rec(blocks, num, den, Seq::empty())
}

/// Index of the first block with maximal confidence.
fn index_of_max_conf(v: &Vec<LayoutBlock>) -> (mi: usize)
    requires
        v@.len() > 0,
    ensures
        mi < v@.len(),
        forall|k: int| 0 <= k < v@.len() ==> (#[trigger] v@[k]).confidence <= v@[mi as int].confidence,
        forall|k: int| 0 <= k < mi ==> (#[trigger] v@[k]).confidence < v@[mi as int].confidence,
        mi as int == spec_first_max_index(v@),
{
    let mut mi: usize = 0;
    let mut i: usize = 1;
    while i < v.len()
        invariant
            0 < v@.len(),
            mi < i <= v@.len(),
            forall|k: int| 0 <= k < i ==> (#[trigger] v@[k]).confidence <= v@[mi as int].confidence,
            forall|k: int| 0 <= k < mi ==> (#[trigger] v@[k]).confidence < v@[mi as int].confidence,
        decreases v@.len() - i,
    {
        if v[i].confidence > v[mi].confidence {
            mi = i;
        }
        i = i + 1;
    }
    proof {
        lemma_first_max_index_props(v@);
        let m = spec_first_max_index(v@);
        if m < mi {
            assert(v@[m].confidence < v@[mi as int].confidence);
            assert(v@[mi as int].confidence <= v@[m].confidence);
        } else if (mi as int) < m {
            assert(v@[mi as int].confidence < v@[m].confidence);
            assert(v@[m].confidence <= v@[mi as int].confidence);
        }
    }
    mi
}

/// True when some already-kept box overlaps `b` beyond the threshold.
fn overlaps_any(kept: &Vec<LayoutBlock>, b: &LayoutBlock, num: i64, den: i64) -> (r: bool)
    requires
        blocks_wf(kept@),
        b.wf(),
        0 <= num <= 1000,
        0 < den <= 1000,
    ensures
        r == spec_overlaps_kept(kept@, *b, num, den),
{
    let mut i: usize = 0;
    while i < kept.len()
        invariant
            blocks_wf(kept@),
            b.wf(),
            0 <= num <= 1000,
            0 < den <= 1000,
            i <= kept@.len(),
            forall|k: int| 0 <= k < i
                ==> !spec_iou_exceeds((#[trigger] kept@[k]).bbox, b.bbox, num, den),
        decreases kept@.len() - i,
    {
        if iou_exceeds(&kept[i].bbox, &b.bbox, num, den) {
            proof {
                assert(spec_overlaps_kept(kept@, *b, num, den));
            }
            return true;
        }
        i = i + 1;
    }
    false
}

/// Greedy non-maximum suppression with IoU threshold `num / den`.
///
/// The survivors come out in descending confidence order; no two survivors
/// overlap beyond the threshold; every survivor is one of the candidates;
/// and every candidate either survives or overlaps a survivor of confidence
/// at least its own.
pub fn nms(blocks: Vec<LayoutBlock>, num: i64, den: i64) -> (r: Vec<LayoutBlock>)
    requires
        blocks_wf(blocks@),
        0 <= num <= 1000,
        0 < den <= 1000,
    ensures
        blocks_wf(r@),
        sorted_by_confidence_desc(r@),
        pairwise_within_iou(r@, num, den),
        forall|k: int| 0 <= k < r@.len() ==> blocks@.contains(#[trigger] r@[k]),
        forall|j: int| 0 <= j < blocks@.len()
            ==> r@.contains(#[trigger] blocks@[j]) || suppressed_by(r@, blocks@[j], num, den),
        r@.len() <= blocks@.len(),
        // the survivors, with their multiplicities and their order (ties
        // by input position), are exactly what greedy suppression yields
        r@ == spec_nms(blocks@, num, den),
        r@.to_multiset().subset_of(blocks@.to_multiset()),
{
    broadcast use vstd::seq_lib::group_to_multiset_ensures;
    let ghost orig = blocks@;
    let mut rest = blocks;
    let mut out: Vec<LayoutBlock> = Vec::new();
    while rest.len() > 0
        invariant
            0 <= num <= 1000,
            0 < den <= 1000,
            blocks_wf(rest@),
            blocks_wf(out@),
            sorted_by_confidence_desc(out@),
            pairwise_within_iou(out@, num, den),
            forall|o: int, x: int| 0 <= o < out@.len() && 0 <= x < rest@.len()
                ==> (#[trigger] out@[o]).confidence >= (#[trigger] rest@[x]).confidence,
            forall|k: int| 0 <= k < out@.len() ==> orig.contains(#[trigger] out@[k]),
            forall|k: int| 0 <= k < rest@.len() ==> orig.contains(#[trigger] rest@[k]),
            forall|j: int| 0 <= j < orig.len()
                ==> out@.contains(#[trigger] orig[j]) || rest@.contains(#[trigger] orig[j])
                    || suppressed_by(out@, orig[j], num, den),
            out@.len() + rest@.len() <= orig.len(),
            spec_nms(orig, num, den) == spec_nms_rec(rest@, num, den, out@),
            out@.to_multiset().add(rest@.to_multiset()).subset_of(orig.to_multiset()),
        decreases rest@.len(),
    {
        let ghost rest_before = rest@;
        let ghost out_before = out@;
        let mi = index_of_max_conf(&rest);
        let b = rest.remove(mi);
        proof {
            rest_before.to_multiset_ensures();
            assert(rest@.to_multiset() =~= rest_before.to_multiset().remove(b));
        }
        proof {
            assert forall|k: int| 0 <= k < rest@.len()
                implies orig.contains(#[trigger] rest@[k]) by {
                if k < mi {
                    assert(rest@[k] == rest_before[k]);
                } else {
                    assert(rest@[k] == rest_before[k + 1]);
                }
            }
            assert forall|o: int, x: int|
                0 <= o < out@.len() && 0 <= x < rest@.len()
                implies (#[trigger] out@[o]).confidence >= (#[trigger] rest@[x]).confidence by {
                if x < mi {
                    assert(rest@[x] == rest_before[x]);
                } else {
                    assert(rest@[x] == rest_before[x + 1]);
                }
            }
        }
        if !overlaps_any(&out, &b, num, den) {
            out.push(b);
            proof {
                assert forall|p: int, q: int|
                    0 <= p < out@.len() && 0 <= q < out@.len() && p != q
                    implies !spec_iou_exceeds(
                        #[trigger] out@[p].bbox, #[trigger] out@[q].bbox, num, den) by {
                    if p < out@.len() - 1 && q < out@.len() - 1 {
                        assert(out@[p] == out_before[p] && out@[q] == out_before[q]);
                    } else if q == out@.len() - 1 {
                        assert(out@[p] == out_before[p] && out@[q] == b);
                    } else {
                        assert(out@[q] == out_before[q] && out@[p] == b);
                        lemma_iou_symmetric(b.bbox, out@[q].bbox, num, den);
                    }
                }
            }
        } else {
            proof {
                let w = choose|k: int| 0 <= k < out_before.len()
                    && spec_iou_exceeds((#[trigger] out_before[k]).bbox, b.bbox, num, den);
                assert(out@[w].confidence >= b.confidence);
                assert(suppressed_by(out@, b, num, den));
            }
        }
        proof {
            // one unfolding of the greedy spec matches this iteration
            assert(spec_nms_rec(rest_before, num, den, out_before)
                == spec_nms_rec(rest@, num, den, out@));
            // the kept-and-pending stock never grows
            if out@.len() > out_before.len() {
                out_before.to_multiset_ensures();
                assert(out@.to_multiset() =~= out_before.to_multiset().insert(b));
                assert(out@.to_multiset().add(rest@.to_multiset())
                    =~= out_before.to_multiset().add(rest_before.to_multiset()));
            } else {
                assert(out@.to_multiset().add(rest@.to_multiset())
                    .subset_of(out_before.to_multiset().add(rest_before.to_multiset())));
            }
        }
        proof {
            assert forall|j: int| 0 <= j < orig.len()
                implies out@.contains(#[trigger] orig[j]) || rest@.contains(orig[j])
                    || suppressed_by(out@, orig[j], num, den) by {
                if rest_before.contains(orig[j]) {
                    let x = choose|x: int| 0 <= x < rest_before.len() && rest_before[x] == orig[j];
                    if x == mi {
                        // the removed element; it was either kept or suppressed
                        if out@.len() > out_before.len() {
                            assert(out@[out@.len() - 1] == b);
                            assert(out@.contains(orig[j]));
                        }
                    } else if x < mi {
                        assert(rest@[x] == rest_before[x]);
                        assert(rest@.contains(orig[j]));
                    } else {
                        assert(rest@[x - 1] == rest_before[x]);
                        assert(rest@.contains(orig[j]));
                    }
                } else if out_before.contains(orig[j]) {
                    let o = choose|o: int| 0 <= o < out_before.len() && out_before[o] == orig[j];
                    assert(out@[o] == orig[j]);
                    assert(out@.contains(orig[j]));
                } else if suppressed_by(out_before, orig[j], num, den) {
                    let k = choose|k: int| 0 <= k < out_before.len()
                        && (#[trigger] out_before[k]).confidence >= orig[j].confidence
                        && spec_iou_exceeds(out_before[k].bbox, orig[j].bbox, num, den);
                    assert(out@[k] == out_before[k]);
                    assert(suppressed_by(out@, orig[j], num, den));
                }
            }
        }
    }
    out
}

/// Suppression soundness: a candidate whose confidence strictly exceeds
/// that of every *other* candidate overlapping it beyond the threshold is
/// never suppressed — in any mutually-overlapping cluster, the member of
/// highest confidence survives.
///
/// `input` and `r` are the candidate list and the survivors of [`nms`];
/// the first two premises are that function's postconditions.
pub proof fn lemma_nms_cluster_top_survives(
    input: Seq<LayoutBlock>,
    r: Seq<LayoutBlock>,
    j: int,
    num: i64,
    den: i64,
)
    requires
        forall|k: int| 0 <= k < r.len() ==> input.contains(#[trigger] r[k]),
        forall|i: int| 0 <= i < input.len()
            ==> r.contains(#[trigger] input[i]) || suppressed_by(r, input[i], num, den),
        0 <= j < input.len(),
        forall|i: int|
            0 <= i < input.len()
                && spec_iou_exceeds((#[trigger] input[i]).bbox, input[j].bbox, num, den)
                && input[i].confidence >= input[j].confidence
            ==> input[i] == input[j],
    ensures
        r.contains(input[j]),
{
    if !r.contains(input[j]) {
        assert(suppressed_by(r, input[j], num, den));
        let k = choose|k: int| 0 <= k < r.len()
            && (#[trigger] r[k]).confidence >= input[j].confidence
            && spec_iou_exceeds(r[k].bbox, input[j].bbox, num, den);
        assert(input.contains(r[k]));
        let i = choose|i: int| 0 <= i < input.len() && input[i] == r[k];
        assert(input[i] == input[j]);
        assert(r.contains(input[j]));
    }
}

/// Greedy suppression leaves an already-suppressed stock alone: with the
/// pending candidates sorted below the kept ones and nothing overlapping,
/// every candidate is appended unchanged.
proof fn lemma_nms_rec_fixpoint(rest: Seq<LayoutBlock>, num: i64, den: i64, kept: Seq<LayoutBlock>)
    requires
        sorted_by_confidence_desc(kept + rest),
        pairwise_within_iou(kept + rest, num, den),
    ensures
        spec_nms_rec(rest, num, den, kept) == kept + rest,
    decreases rest.len(),
{
    if rest.len() == 0 {
        assert(kept + rest =~= kept);
    } else {
        lemma_first_max_index_props(rest);
        let m = spec_first_max_index(rest);
        let whole = kept + rest;
        assert forall|k: int| 0 <= k < rest.len()
            implies (#[trigger] rest[k]) == whole[kept.len() + k] by {}
        if m > 0 {
            assert(whole[kept.len() as int].confidence >= whole[kept.len() + m].confidence);
            assert(rest[0].confidence < rest[m].confidence);
            assert(false);
        }
        let b = rest[0];
        assert(!spec_overlaps_kept(kept, b, num, den)) by {
            if spec_overlaps_kept(kept, b, num, den) {
                let w = choose|k: int| 0 <= k < kept.len()
                    && spec_iou_exceeds((#[trigger] kept[k]).bbox, b.bbox, num, den);
                assert(whole[w] == kept[w] && whole[kept.len() as int] == b);
                assert(!spec_iou_exceeds(whole[w].bbox, whole[kept.len() as int].bbox, num, den));
            }
        }
        assert(kept.push(b) + rest.remove(0) =~= kept + rest);
        lemma_nms_rec_fixpoint(rest.remove(0), num, den, kept.push(b));
        assert(spec_nms_rec(rest, num, den, kept)
            == spec_nms_rec(rest.remove(0), num, den, kept.push(b)));
    }
}

/// Suppression is idempotent: on a stock that is already sorted by
/// descending confidence with no pair past the IoU threshold — as every
/// result of [`nms`] is — greedy suppression returns exactly that
/// sequence.  Running [`nms`] twice therefore returns the first result.
pub proof fn lemma_nms_idempotent(s: Seq<LayoutBlock>, num: i64, den: i64)
    requires
        sorted_by_confidence_desc(s),
        pairwise_within_iou(s, num, den),
    ensures
        spec_nms(s, num, den) == s,
{
    assert(Seq::<LayoutBlock>::empty() + s =~= s);
    lemma_nms_rec_fixpoint(s, num, den, Seq::empty());
}

} // verus!
