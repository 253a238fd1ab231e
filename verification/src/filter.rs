//! Confidence and size filtering of raw detections, and conversion from
//! source-bitmap pixels to page points.

use vstd::prelude::*;
use crate::blocks::{LayoutBlock, RawDetection, LAYOUT_CLASS_COUNT};
use crate::geom::BBox;
use vstd::arithmetic::div_mod::{
    lemma_fundamental_div_mod, lemma_div_pos_is_pos, lemma_div_is_ordered,
    lemma_div_multiples_vanish, lemma_mod_division_less_than_divisor,
};

verus! {

/// Left edge after clamping to the bitmap.
pub open spec fn spec_clamped_x(r: RawDetection) -> int {
    if r.xmin >= 0 { r.xmin as int } else { 0 }
}

/// Top edge after clamping to the bitmap.
pub open spec fn spec_clamped_y(r: RawDetection) -> int {
    if r.ymin >= 0 { r.ymin as int } else { 0 }
}

/// Width after clamping the right edge to the bitmap.
pub open spec fn spec_clamped_w(r: RawDetection, bitmap_w: i64) -> int {
    (if r.xmax <= bitmap_w { r.xmax as int } else { bitmap_w as int }) - spec_clamped_x(r)
}

/// Height after clamping the bottom edge to the bitmap.
pub open spec fn spec_clamped_h(r: RawDetection, bitmap_h: i64) -> int {
    (if r.ymax <= bitmap_h { r.ymax as int } else { bitmap_h as int }) - spec_clamped_y(r)
}

/// A detection row passes the filter when its confidence reaches 0.4, its
/// class is in the known class table, and its clamped box is at least five
/// pixels in both directions.
pub open spec fn spec_row_accepted(r: RawDetection, bitmap_w: i64, bitmap_h: i64) -> bool {
    &&& r.confidence >= 400
    &&& r.class_id < LAYOUT_CLASS_COUNT
    &&& spec_clamped_w(r, bitmap_w) >= 5
    &&& spec_clamped_h(r, bitmap_h) >= 5
}

/// Bitmap pixels to page points: multiply by `page / bitmap`, rounding down.
pub open spec fn spec_scale(v: int, page: i64, bitmap: i64) -> int {
    v * page / (bitmap as int)
}

/// The page-point box an accepted row turns into: its clamped pixel box
/// scaled into page points.
pub open spec fn spec_row_bbox(
    r: RawDetection, bitmap_w: i64, bitmap_h: i64, page_w: i64, page_h: i64,
) -> BBox {
    BBox {
        x: spec_scale(spec_clamped_x(r), page_w, bitmap_w) as i64,
        y: spec_scale(spec_clamped_y(r), page_h, bitmap_h) as i64,
        w: spec_scale(spec_clamped_w(r, bitmap_w), page_w, bitmap_w) as i64,
        h: spec_scale(spec_clamped_h(r, bitmap_h), page_h, bitmap_h) as i64,
    }
}

/// `b` derives from row `r`: its box is the row's clamped, scaled box and
/// it keeps the row's class and confidence.  Reading order and line bands
/// are left open (later stages assign them).
pub open spec fn spec_block_from_row(
    b: LayoutBlock, r: RawDetection, bitmap_w: i64, bitmap_h: i64, page_w: i64, page_h: i64,
) -> bool {
    &&& b.bbox == spec_row_bbox(r, bitmap_w, bitmap_h, page_w, page_h)
    &&& b.class_id == r.class_id
    &&& b.confidence == r.confidence
}

/// `b` is exactly the block an accepted row `r` turns into: clamped box
/// scaled into page points, reading order still unassigned, no lines yet.
pub open spec fn spec_block_matches_row(
    b: LayoutBlock, r: RawDetection, bitmap_w: i64, bitmap_h: i64, page_w: i64, page_h: i64,
) -> bool {
    &&& spec_block_from_row(b, r, bitmap_w, bitmap_h, page_w, page_h)
    &&& b.order == 0
    &&& b.lines@.len() == 0
}

/// The accepted rows, in input order.
pub open spec fn spec_accepted_rows(
    rows: Seq<RawDetection>, bitmap_w: i64, bitmap_h: i64,
) -> Seq<RawDetection>
    decreases rows.len(),
{
    if rows.len() == 0 {
        Seq::empty()
    } else {
        let rest = spec_accepted_rows(rows.drop_last(), bitmap_w, bitmap_h);
        if spec_row_accepted(rows.last(), bitmap_w, bitmap_h) {
            rest.push(rows.last())
        } else {
            rest
        }
    }
}

/// Two scaled parts never add up past the scaled whole.
proof fn lemma_scale_sum(a: int, b: int, p: int, d: int)
    requires
        0 <= a,
        0 <= b,
        a + b <= d,
        0 < d,
        0 <= p,
    ensures
        a * p / d + b * p / d <= p,
{
    lemma_fundamental_div_mod(a * p, d);
    lemma_fundamental_div_mod(b * p, d);
    lemma_mod_division_less_than_divisor(a * p, d);
    lemma_mod_division_less_than_divisor(b * p, d);
    let x = a * p / d;
    let y = b * p / d;
    let q = x + y;
    assert(d * q == d * x + d * y) by (nonlinear_arith)
        requires
            q == x + y,
    ;
    assert(a * p + b * p == (a + b) * p) by (nonlinear_arith);
    assert((a + b) * p <= d * p) by (nonlinear_arith)
        requires
            a + b <= d,
            0 <= p,
    ;
    assert(d * q <= d * p);
    assert(q <= p) by (nonlinear_arith)
        requires
            d * q <= d * p,
            0 < d,
    ;
}

/// Scales one non-negative pixel length into page points.
fn scale_point(v: i64, page: i64, bitmap: i64) -> (r: i64)
    requires
        0 <= v <= bitmap,
        0 < bitmap <= crate::COORD_LIMIT,
        0 < page <= crate::COORD_LIMIT,
    ensures
        r == spec_scale(v as int, page, bitmap),
        0 <= r <= page,
{
    proof {
        assert(v * page <= bitmap * page) by (nonlinear_arith)
            requires
                0 <= v <= bitmap,
                0 < page,
        ;
        assert(0 <= v * page) by (nonlinear_arith)
            requires
                0 <= v,
                0 <= page,
        ;
        assert(bitmap * page <= crate::COORD_LIMIT * crate::COORD_LIMIT) by (nonlinear_arith)
            requires
                0 < bitmap <= crate::COORD_LIMIT,
                0 < page <= crate::COORD_LIMIT,
        ;
        lemma_div_pos_is_pos(v * page, bitmap as int);
        lemma_div_is_ordered(v * page, bitmap * page, bitmap as int);
        lemma_div_multiples_vanish(page as int, bitmap as int);
        assert(bitmap * page == (bitmap as int) * (page as int));
    }
    v * page / bitmap
}

/// Filters raw detection rows and converts the survivors into layout
/// blocks in page points, preserving input order.
pub fn filter_detections(
    rows: &Vec<RawDetection>,
    bitmap_w: i64,
    bitmap_h: i64,
    page_w: i64,
    page_h: i64,
) -> (r: Vec<LayoutBlock>)
    requires
        forall|i: int| 0 <= i < rows@.len() ==> (#[trigger] rows@[i]).wf(),
        0 < bitmap_w <= crate::COORD_LIMIT,
        0 < bitmap_h <= crate::COORD_LIMIT,
        0 < page_w <= crate::COORD_LIMIT,
        0 < page_h <= crate::COORD_LIMIT,
    ensures
        r@.len() == spec_accepted_rows(rows@, bitmap_w, bitmap_h).len(),
        forall|k: int| 0 <= k < r@.len()
            ==> spec_block_matches_row(
                #[trigger] r@[k],
                spec_accepted_rows(rows@, bitmap_w, bitmap_h)[k],
                bitmap_w, bitmap_h, page_w, page_h),
        crate::nms::blocks_wf(r@),
{
    let mut out: Vec<LayoutBlock> = Vec::new();
    let mut i: usize = 0;
    while i < rows.len()
        invariant
            forall|k: int| 0 <= k < rows@.len() ==> (#[trigger] rows@[k]).wf(),
            0 < bitmap_w <= crate::COORD_LIMIT,
            0 < bitmap_h <= crate::COORD_LIMIT,
            0 < page_w <= crate::COORD_LIMIT,
            0 < page_h <= crate::COORD_LIMIT,
            i <= rows@.len(),
            out@.len() == spec_accepted_rows(rows@.subrange(0, i as int), bitmap_w, bitmap_h).len(),
            forall|k: int| 0 <= k < out@.len()
                ==> spec_block_matches_row(
                    #[trigger] out@[k],
                    spec_accepted_rows(rows@.subrange(0, i as int), bitmap_w, bitmap_h)[k],
                    bitmap_w, bitmap_h, page_w, page_h),
            crate::nms::blocks_wf(out@),
        decreases rows@.len() - i,
    {
        let row = rows[i];
        let cx = if row.xmin >= 0 { row.xmin } else { 0 };
        let cy = if row.ymin >= 0 { row.ymin } else { 0 };
        let right = if row.xmax <= bitmap_w { row.xmax } else { bitmap_w };
        let bottom = if row.ymax <= bitmap_h { row.ymax } else { bitmap_h };
        let cw = right - cx;
        let ch = bottom - cy;
        let accepted = row.confidence >= 400
            && row.class_id < LAYOUT_CLASS_COUNT
            && cw >= 5
            && ch >= 5;
        if accepted {
            let x = scale_point(cx, page_w, bitmap_w);
            let y = scale_point(cy, page_h, bitmap_h);
            let w = scale_point(cw, page_w, bitmap_w);
            let h = scale_point(ch, page_h, bitmap_h);
            let block = LayoutBlock {
                bbox: BBox { x, y, w, h },
                class_id: row.class_id,
                confidence: row.confidence,
                order: 0,
                lines: Vec::new(),
            };
            proof {
                lemma_scale_sum(cx as int, cw as int, page_w as int, bitmap_w as int);
                lemma_scale_sum(cy as int, ch as int, page_h as int, bitmap_h as int);
                assert(block.wf());
                assert(spec_block_matches_row(block, rows@[i as int], bitmap_w, bitmap_h, page_w, page_h));
            }
            out.push(block);
        }
        proof {
            let pre = rows@.subrange(0, i as int);
            let cur = rows@.subrange(0, i + 1);
            assert(cur.drop_last() =~= pre);
            assert(cur.last() == rows@[i as int]);
            assert(spec_accepted_rows(cur, bitmap_w, bitmap_h) ==
                if spec_row_accepted(rows@[i as int], bitmap_w, bitmap_h) {
                    spec_accepted_rows(pre, bitmap_w, bitmap_h).push(rows@[i as int])
                } else {
                    spec_accepted_rows(pre, bitmap_w, bitmap_h)
                });
        }
        i = i + 1;
    }
    proof {
        assert(rows@.subrange(0, rows@.len() as int) =~= rows@);
    }
    out
}

} // verus!
