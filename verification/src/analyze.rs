//! The full detection post-processing pipeline, and the deterministic
//! fallback layout used when no detector output is available.

use vstd::prelude::*;
use crate::blocks::{LayoutBlock, PageAnalysis, RawDetection, spec_is_navigable};
use crate::nms::{blocks_wf, pairwise_within_iou};
use crate::order::order_taken;

verus! {

/// Reorders blocks so that position equals reading-order rank.
#[verifier::loop_isolation(false)]
pub fn sort_by_order(blocks: Vec<LayoutBlock>) -> (r: Vec<LayoutBlock>)
    requires
        forall|k: int| 0 <= k < blocks@.len()
            ==> (#[trigger] blocks@[k]).order < blocks@.len(),
        forall|k1: int, k2: int|
            0 <= k1 < blocks@.len() && 0 <= k2 < blocks@.len() && k1 != k2
                ==> (#[trigger] blocks@[k1]).order != (#[trigger] blocks@[k2]).order,
        forall|t: int| 0 <= t < blocks@.len() ==> #[trigger] order_taken(blocks@, t),
    ensures
        r@.len() == blocks@.len(),
        forall|k: int| 0 <= k < r@.len() ==> (#[trigger] r@[k]).order == k,
        forall|k: int| 0 <= k < r@.len() ==> blocks@.contains(#[trigger] r@[k]),
        forall|j: int| 0 <= j < blocks@.len() ==> r@.contains(#[trigger] blocks@[j]),
{
    let ghost orig = blocks@;
    let n = blocks.len();
    let mut rest = blocks;
    let mut out: Vec<LayoutBlock> = Vec::new();
    while out.len() < n
        invariant
            out@.len() + rest@.len() == n,
            forall|k: int| 0 <= k < out@.len() ==> (#[trigger] out@[k]).order == k,
            forall|k: int| 0 <= k < out@.len() ==> orig.contains(#[trigger] out@[k]),
            forall|k: int| 0 <= k < rest@.len() ==> orig.contains(#[trigger] rest@[k]),
            forall|j: int| 0 <= j < n
                ==> out@.contains(#[trigger] orig[j]) || rest@.contains(#[trigger] orig[j]),
            forall|k: int| 0 <= k < rest@.len()
                ==> out@.len() <= (#[trigger] rest@[k]).order < n,
            forall|k1: int, k2: int|
                0 <= k1 < rest@.len() && 0 <= k2 < rest@.len() && k1 != k2
                    ==> (#[trigger] rest@[k1]).order != (#[trigger] rest@[k2]).order,
            forall|t: int| out@.len() <= t < n
                ==> #[trigger] order_taken(rest@, t),
        decreases n - out@.len(),
    {
        let target = out.len();
        proof {
            assert(order_taken(rest@, target as int));
        }
        let mut j: usize = 0;
        let mut found: usize = 0;
        let mut have: bool = false;
        while j < rest.len()
            invariant
                j <= rest@.len(),
                have ==> found < rest@.len() && rest@[found as int].order == target,
                !have ==> forall|k: int| 0 <= k < j
                    ==> (#[trigger] rest@[k]).order != target,
            decreases rest@.len() - j,
        {
            if rest[j].order == target {
                found = j;
                have = true;
                j = rest.len();
            } else {
                j = j + 1;
            }
        }
        proof {
            if !have {
                let w = choose|k: int| 0 <= k < rest@.len()
                    && (#[trigger] rest@[k]).order == target;
                assert(false);
            }
        }
        let ghost rest_before = rest@;
        let ghost out_before = out@;
        let b = rest.remove(found);
        out.push(b);
        proof {
            assert forall|k: int| 0 <= k < rest@.len()
                implies orig.contains(#[trigger] rest@[k])
                    && out@.len() <= rest@[k].order < n by {
                if k < found { assert(rest@[k] == rest_before[k]); }
                else { assert(rest@[k] == rest_before[k + 1]); }
            }
            assert forall|j: int| 0 <= j < n
                implies out@.contains(#[trigger] orig[j]) || rest@.contains(#[trigger] orig[j]) by {
                if rest_before.contains(orig[j]) {
                    let x = choose|x: int| 0 <= x < rest_before.len()
                        && rest_before[x] == orig[j];
                    if x == found {
                        assert(out@[out@.len() - 1] == orig[j]);
                        assert(out@.contains(orig[j]));
                    } else if x < found {
                        assert(rest@[x] == orig[j]);
                        assert(rest@.contains(orig[j]));
                    } else {
                        assert(rest@[x - 1] == orig[j]);
                        assert(rest@.contains(orig[j]));
                    }
                } else {
                    let w = choose|w: int| 0 <= w < out_before.len()
                        && out_before[w] == orig[j];
                    assert(out@[w] == orig[j]);
                    assert(out@.contains(orig[j]));
                }
            }
            assert forall|k1: int, k2: int|
                0 <= k1 < rest@.len() && 0 <= k2 < rest@.len() && k1 != k2
                implies (#[trigger] rest@[k1]).order != (#[trigger] rest@[k2]).order by {
                let a1: int = if k1 < found { k1 } else { k1 + 1 };
                let a2: int = if k2 < found { k2 } else { k2 + 1 };
                assert(rest@[k1] == rest_before[a1] && rest@[k2] == rest_before[a2]);
            }
            assert forall|t: int| out@.len() <= t < n
                implies #[trigger] order_taken(rest@, t) by {
                assert(order_taken(rest_before, t));
                let w = choose|k: int| 0 <= k < rest_before.len()
                    && (#[trigger] rest_before[k]).order == t;
                assert(w != found);
                if w < found {
                    assert(rest@[w] == rest_before[w]);
                } else {
                    assert(rest@[w - 1] == rest_before[w]);
                }
            }
        }
    }
    out
}

/// `b` derives from one of the accepted detection rows.
pub open spec fn spec_block_derives(
    b: LayoutBlock, rows: Seq<RawDetection>, bitmap_w: i64, bitmap_h: i64, page_w: i64, page_h: i64,
) -> bool {
    exists|j: int| 0 <= j < crate::filter::spec_accepted_rows(rows, bitmap_w, bitmap_h).len()
        && #[trigger] crate::filter::spec_block_from_row(b,
            crate::filter::spec_accepted_rows(rows, bitmap_w, bitmap_h)[j],
            bitmap_w, bitmap_h, page_w, page_h)
}

/// Some block of `s` derives from row `row`.
pub open spec fn spec_row_represented(
    row: RawDetection, s: Seq<LayoutBlock>, bitmap_w: i64, bitmap_h: i64, page_w: i64, page_h: i64,
) -> bool {
    exists|k: int| 0 <= k < s.len()
        && #[trigger] crate::filter::spec_block_from_row(s[k], row,
            bitmap_w, bitmap_h, page_w, page_h)
}

/// Some block of `s` has confidence at least `row`'s and overlaps `row`'s
/// scaled box beyond IoU one half.
pub open spec fn spec_row_suppressed(
    row: RawDetection, s: Seq<LayoutBlock>, bitmap_w: i64, bitmap_h: i64, page_w: i64, page_h: i64,
) -> bool {
    exists|k: int| 0 <= k < s.len()
        && (#[trigger] s[k]).confidence >= row.confidence
        && crate::geom::spec_iou_exceeds(s[k].bbox,
            crate::filter::spec_row_bbox(row, bitmap_w, bitmap_h, page_w, page_h), 1, 2)
}

/// Runs the whole post-processing pipeline on raw detection rows and the
/// rendered page pixels: confidence and size filtering, non-maximum
/// suppression at IoU one half, geometric reading-order assignment, and
/// per-block line segmentation.
pub fn analyze_detections(
    rows: &Vec<RawDetection>,
    rgb: &Vec<u8>,
    bitmap_w: usize,
    bitmap_h: usize,
    page_w: i64,
    page_h: i64,
) -> (r: PageAnalysis)
    requires
        forall|i: int| 0 <= i < rows@.len() ==> (#[trigger] rows@[i]).wf(),
        0 < bitmap_w <= crate::COORD_LIMIT,
        0 < bitmap_h <= crate::COORD_LIMIT,
        0 < page_w <= crate::COORD_LIMIT,
        0 < page_h <= crate::COORD_LIMIT,
    ensures
        r.wf(),
        r.page_width == page_w,
        r.page_height == page_h,
        // blocks come out in reading order
        forall|k: int| 0 <= k < r.blocks@.len() ==> (#[trigger] r.blocks@[k]).order == k,
        // non-maximum suppression holds of the survivors
        pairwise_within_iou(r.blocks@, 1, 2),
        // only detections above the confidence floor survive
        forall|k: int| 0 <= k < r.blocks@.len() ==> (#[trigger] r.blocks@[k]).confidence >= 400,
        r.blocks@.len() <= rows@.len(),
        // navigable blocks carry exactly the segmentation of their pixel region
        forall|k: int| 0 <= k < r.blocks@.len()
            && spec_is_navigable(r.blocks@[k].class_id)
            ==> (#[trigger] r.blocks@[k]).lines@ == crate::lines::spec_block_lines(
                r.blocks@[k].bbox, rgb@, bitmap_w as int, bitmap_h as int,
                page_w as int, page_h as int),
        // non-navigable blocks carry no lines
        forall|k: int| 0 <= k < r.blocks@.len()
            && !spec_is_navigable(r.blocks@[k].class_id)
            ==> (#[trigger] r.blocks@[k]).lines@.len() == 0,
        // every output block derives from a row that passed the filter
        forall|k: int| 0 <= k < r.blocks@.len()
            ==> spec_block_derives(#[trigger] r.blocks@[k], rows@,
                bitmap_w as i64, bitmap_h as i64, page_w, page_h),
        // and every row that passed the filter is either represented by an
        // output block or overlapped past the threshold by one of at least
        // its confidence
        forall|j: int|
            0 <= j < crate::filter::spec_accepted_rows(rows@, bitmap_w as i64, bitmap_h as i64).len()
                ==> spec_row_represented(
                        #[trigger] crate::filter::spec_accepted_rows(
                            rows@, bitmap_w as i64, bitmap_h as i64)[j],
                        r.blocks@, bitmap_w as i64, bitmap_h as i64, page_w, page_h)
                    || spec_row_suppressed(
                        crate::filter::spec_accepted_rows(
                            rows@, bitmap_w as i64, bitmap_h as i64)[j],
                        r.blocks@, bitmap_w as i64, bitmap_h as i64, page_w, page_h),
{
    let ghost acc = crate::filter::spec_accepted_rows(rows@, bitmap_w as i64, bitmap_h as i64);
    let filtered = crate::filter::filter_detections(rows, bitmap_w as i64, bitmap_h as i64, page_w, page_h);
    proof {
        assert forall|k: int| 0 <= k < filtered@.len()
            implies (#[trigger] filtered@[k]).confidence >= 400 by {
            let accepted = crate::filter::spec_accepted_rows(rows@, bitmap_w as i64, bitmap_h as i64);
            assert(crate::filter::spec_block_matches_row(
                filtered@[k], accepted[k], bitmap_w as i64, bitmap_h as i64, page_w, page_h));
            lemma_accepted_rows_confident(rows@, bitmap_w as i64, bitmap_h as i64, k);
        }
        lemma_accepted_rows_len(rows@, bitmap_w as i64, bitmap_h as i64);
    }
    let mut kept = crate::nms::nms(filtered, 1, 2);
    let ghost after_nms = kept@;
    crate::order::assign_reading_order(&mut kept, page_w);
    proof {
        assert forall|p: int, q: int|
            0 <= p < kept@.len() && 0 <= q < kept@.len() && p != q
            implies !crate::geom::spec_iou_exceeds(
                (#[trigger] kept@[p]).bbox, (#[trigger] kept@[q]).bbox, 1, 2) by {
            assert(crate::order::same_but_order(after_nms[p], kept@[p]));
            assert(crate::order::same_but_order(after_nms[q], kept@[q]));
            assert(!crate::geom::spec_iou_exceeds(after_nms[p].bbox, after_nms[q].bbox, 1, 2));
        }
        assert forall|k: int| 0 <= k < kept@.len()
            implies (#[trigger] kept@[k]).confidence >= 400 && kept@[k].wf() by {
            assert(crate::order::same_but_order(after_nms[k], kept@[k]));
            assert(filtered@.contains(after_nms[k]));
            let w = choose|w: int| 0 <= w < filtered@.len() && filtered@[w] == after_nms[k];
            assert(filtered@[w].confidence >= 400);
            assert(filtered@[w].wf());
        }
    }
    let ghost assigned = kept@;
    let mut sorted = sort_by_order(kept);
    let ghost presort = sorted@;
    crate::lines::detect_lines_for_blocks(&mut sorted, rgb, bitmap_w, bitmap_h, page_w, page_h);
    proof {
        assert forall|k: int| 0 <= k < sorted@.len()
            && spec_is_navigable(sorted@[k].class_id)
            implies (#[trigger] sorted@[k]).lines@ == crate::lines::spec_block_lines(
                sorted@[k].bbox, rgb@, bitmap_w as int, bitmap_h as int,
                page_w as int, page_h as int) by {
            assert(crate::lines::same_but_lines(presort[k], sorted@[k]));
        }
        // chase each output block back to the accepted row it derives from
        assert forall|k: int| 0 <= k < sorted@.len()
            implies spec_block_derives(#[trigger] sorted@[k], rows@,
                bitmap_w as i64, bitmap_h as i64, page_w, page_h)
                && (!spec_is_navigable(sorted@[k].class_id) ==> sorted@[k].lines@.len() == 0) by {
            assert(crate::lines::same_but_lines(presort[k], sorted@[k]));
            assert(assigned.contains(presort[k]));
            let w1 = choose|w1: int| 0 <= w1 < assigned.len() && assigned[w1] == presort[k];
            assert(crate::order::same_but_order(after_nms[w1], assigned[w1]));
            assert(filtered@.contains(after_nms[w1]));
            let w2 = choose|w2: int| 0 <= w2 < filtered@.len() && filtered@[w2] == after_nms[w1];
            assert(crate::filter::spec_block_matches_row(filtered@[w2], acc[w2],
                bitmap_w as i64, bitmap_h as i64, page_w, page_h));
            assert(crate::filter::spec_block_from_row(sorted@[k], acc[w2],
                bitmap_w as i64, bitmap_h as i64, page_w, page_h));
            if !spec_is_navigable(sorted@[k].class_id) {
                assert(sorted@[k].lines@ == presort[k].lines@);
                assert(presort[k].lines == after_nms[w1].lines);
                assert(after_nms[w1].lines@.len() == 0);
            }
        }
        // chase each accepted row forward: kept by suppression or overlapped
        assert forall|j: int| 0 <= j < acc.len()
            implies spec_row_represented(#[trigger] acc[j], sorted@,
                    bitmap_w as i64, bitmap_h as i64, page_w, page_h)
                || spec_row_suppressed(acc[j], sorted@,
                    bitmap_w as i64, bitmap_h as i64, page_w, page_h) by {
            assert(crate::filter::spec_block_matches_row(filtered@[j], acc[j],
                bitmap_w as i64, bitmap_h as i64, page_w, page_h));
            if after_nms.contains(filtered@[j]) {
                let w = choose|w: int| 0 <= w < after_nms.len()
                    && after_nms[w] == filtered@[j];
                assert(crate::order::same_but_order(after_nms[w], assigned[w]));
                assert(presort.contains(assigned[w]));
                let w2 = choose|w2: int| 0 <= w2 < presort.len() && presort[w2] == assigned[w];
                assert(crate::lines::same_but_lines(presort[w2], sorted@[w2]));
                assert(crate::filter::spec_block_from_row(sorted@[w2], acc[j],
                    bitmap_w as i64, bitmap_h as i64, page_w, page_h));
            } else {
                assert(crate::nms::suppressed_by(after_nms, filtered@[j], 1, 2));
                let w = choose|w: int| 0 <= w < after_nms.len()
                    && (#[trigger] after_nms[w]).confidence >= filtered@[j].confidence
                    && crate::geom::spec_iou_exceeds(after_nms[w].bbox, filtered@[j].bbox, 1, 2);
                assert(crate::order::same_but_order(after_nms[w], assigned[w]));
                assert(presort.contains(assigned[w]));
                let w2 = choose|w2: int| 0 <= w2 < presort.len() && presort[w2] == assigned[w];
                assert(crate::lines::same_but_lines(presort[w2], sorted@[w2]));
                assert(sorted@[w2].confidence >= acc[j].confidence);
                assert(sorted@[w2].bbox == after_nms[w].bbox);
                assert(filtered@[j].bbox == crate::filter::spec_row_bbox(acc[j],
                    bitmap_w as i64, bitmap_h as i64, page_w, page_h));
            }
        }
    }
    PageAnalysis { blocks: sorted, page_width: page_w, page_height: page_h }
}


/// Every accepted row carries confidence at least 0.4.
proof fn lemma_accepted_rows_confident(rows: Seq<RawDetection>, bitmap_w: i64, bitmap_h: i64, k: int)
    requires
        0 <= k < crate::filter::spec_accepted_rows(rows, bitmap_w, bitmap_h).len(),
    ensures
        crate::filter::spec_accepted_rows(rows, bitmap_w, bitmap_h)[k].confidence >= 400,
    decreases rows.len(),
{
    if rows.len() > 0 {
        let rest = crate::filter::spec_accepted_rows(rows.drop_last(), bitmap_w, bitmap_h);
        if k < rest.len() {
            lemma_accepted_rows_confident(rows.drop_last(), bitmap_w, bitmap_h, k);
        }
    }
}

/// The filter never grows the row list.
proof fn lemma_accepted_rows_len(rows: Seq<RawDetection>, bitmap_w: i64, bitmap_h: i64)
    ensures
        crate::filter::spec_accepted_rows(rows, bitmap_w, bitmap_h).len() <= rows.len(),
    decreases rows.len(),
{
    if rows.len() > 0 {
        lemma_accepted_rows_len(rows.drop_last(), bitmap_w, bitmap_h);
    }
}

/// The deterministic fallback layout: the page split into eight equal
/// horizontal strips, each one a single-line navigable text block in
/// reading order.
pub fn fallback_analysis(page_width: i64, page_height: i64) -> (r: PageAnalysis)
    requires
        0 < page_width <= crate::COORD_LIMIT,
        0 < page_height <= crate::COORD_LIMIT,
    ensures
        r.wf(),
        r.page_width == page_width,
        r.page_height == page_height,
        r.blocks@.len() == 8,
        forall|i: int| 0 <= i < 8 ==> (#[trigger] r.blocks@[i]).order == i,
        forall|i: int| 0 <= i < 8 ==> (#[trigger] r.blocks@[i]).class_id == 2,
        forall|i: int| 0 <= i < 8 ==> (#[trigger] r.blocks@[i]).confidence == 1000,
        forall|i: int| 0 <= i < 8 ==> {
            let strip_h = page_height / 8;
            let b = #[trigger] r.blocks@[i];
            b.bbox.x == 0 && b.bbox.y == i * strip_h
                && b.bbox.w == page_width && b.bbox.h == strip_h
                && b.lines@.len() == 1
                && b.lines@[0].y == i * strip_h + strip_h / 2
                && b.lines@[0].height == strip_h
        },
{
    let strip_h = page_height / 8;
    let mut blocks: Vec<LayoutBlock> = Vec::new();
    let mut i: usize = 0;
    while i < 8
        invariant
            0 < page_width <= crate::COORD_LIMIT,
            0 < page_height <= crate::COORD_LIMIT,
            strip_h == page_height / 8,
            0 <= strip_h <= page_height,
            i <= 8,
            blocks@.len() == i,
            forall|t: int| 0 <= t < i ==> {
                let b = #[trigger] blocks@[t];
                b.order == t && b.class_id == 2 && b.confidence == 1000
                    && b.bbox.x == 0 && b.bbox.y == t * strip_h
                    && b.bbox.w == page_width && b.bbox.h == strip_h
                    && b.lines@.len() == 1
                    && b.lines@[0].y == t * strip_h + strip_h / 2
                    && b.lines@[0].height == strip_h
                    && b.wf()
                    && b.lines@[0].wf()
            },
        decreases 8 - i,
    {
        proof {
            assert(8 * strip_h <= page_height) by (nonlinear_arith)
                requires
                    strip_h == page_height / 8,
                    0 < page_height,
            ;
            assert((i + 1) * strip_h <= 8 * strip_h) by (nonlinear_arith)
                requires
                    0 <= i as int <= 7,
                    0 <= strip_h,
            ;
            assert(i as int * strip_h >= 0) by (nonlinear_arith)
                requires
                    0 <= i as int,
                    0 <= strip_h,
            ;
            assert((i as int + 1) * strip_h == i as int * strip_h + strip_h) by (nonlinear_arith);
        }
        let y = (i as i64) * strip_h;
        let mut lines: Vec<crate::blocks::LineInfo> = Vec::new();
        lines.push(crate::blocks::LineInfo { y: y + strip_h / 2, height: strip_h });
        let block = LayoutBlock {
            bbox: crate::geom::BBox { x: 0, y, w: page_width, h: strip_h },
            class_id: 2,
            confidence: 1000,
            order: i,
            lines,
        };
        blocks.push(block);
        i = i + 1;
    }
    PageAnalysis { blocks, page_width, page_height }
}

} // verus!
