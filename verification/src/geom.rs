//! Axis-aligned boxes in page points and exact intersection-over-union tests.

use vstd::prelude::*;

verus! {

/// Axis-aligned bounding box in page points: origin `(x, y)`, extents
/// `(w, h)`.  A well-formed box has non-negative origin and extents and
/// stays inside [`crate::COORD_LIMIT`] on both axes.
#[derive(Clone, Copy, Debug)]
pub struct BBox {
    pub x: i64,
    pub y: i64,
    pub w: i64,
    pub h: i64,
}

impl BBox {
    /// Coordinates are non-negative and bounded, so that areas and their
    /// sums fit comfortably in `i64`.
    pub open spec fn wf(self) -> bool {
        0 <= self.x && 0 <= self.y && 0 <= self.w && 0 <= self.h
            && self.x + self.w <= crate::COORD_LIMIT
            && self.y + self.h <= crate::COORD_LIMIT
    }
}

/// Width of the horizontal overlap of `a` and `b` (0 when disjoint).
pub open spec fn spec_overlap_x(a: BBox, b: BBox) -> int {
    let lo = if a.x >= b.x { a.x as int } else { b.x as int };
    let hi_a = a.x + a.w;
    let hi_b = b.x + b.w;
    let hi = if hi_a <= hi_b { hi_a } else { hi_b };
    if hi >= lo { hi - lo } else { 0 }
}

/// Height of the vertical overlap of `a` and `b` (0 when disjoint).
pub open spec fn spec_overlap_y(a: BBox, b: BBox) -> int {
    let lo = if a.y >= b.y { a.y as int } else { b.y as int };
    let hi_a = a.y + a.h;
    let hi_b = b.y + b.h;
    let hi = if hi_a <= hi_b { hi_a } else { hi_b };
    if hi >= lo { hi - lo } else { 0 }
}

/// Area of the intersection of `a` and `b`.
pub open spec fn spec_inter_area(a: BBox, b: BBox) -> int {
    spec_overlap_x(a, b) * spec_overlap_y(a, b)
}

/// Area of the union of `a` and `b` (inclusion-exclusion).
pub open spec fn spec_union_area(a: BBox, b: BBox) -> int {
    a.w * a.h + b.w * b.h - spec_inter_area(a, b)
}

/// Exact form of "IoU(a, b) > num/den": intersection over union exceeds the
/// rational threshold.  IoU is defined as 0 when the union area is not
/// positive, so a non-positive union never exceeds a non-negative threshold.
pub open spec fn spec_iou_exceeds(a: BBox, b: BBox, num: i64, den: i64) -> bool {
    spec_union_area(a, b) > 0 && spec_inter_area(a, b) * den > spec_union_area(a, b) * num
}

/// IoU is symmetric in its two boxes.
pub proof fn lemma_iou_symmetric(a: BBox, b: BBox, num: i64, den: i64)
    ensures
        spec_iou_exceeds(a, b, num, den) == spec_iou_exceeds(b, a, num, den),
{
}

/// Decides whether the intersection-over-union of `a` and `b` exceeds the
/// rational threshold `num / den`.
pub fn iou_exceeds(a: &BBox, b: &BBox, num: i64, den: i64) -> (r: bool)
    requires
        a.wf(),
        b.wf(),
        0 <= num <= 1000,
        0 < den <= 1000,
    ensures
        r == spec_iou_exceeds(*a, *b, num, den),
{
    let lo_x = if a.x >= b.x { a.x } else { b.x };
    let hi_ax = a.x + a.w;
    let hi_bx = b.x + b.w;
    let hi_x = if hi_ax <= hi_bx { hi_ax } else { hi_bx };
    let ov_x = if hi_x >= lo_x { hi_x - lo_x } else { 0 };

    let lo_y = if a.y >= b.y { a.y } else { b.y };
    let hi_ay = a.y + a.h;
    let hi_by = b.y + b.h;
    let hi_y = if hi_ay <= hi_by { hi_ay } else { hi_by };
    let ov_y = if hi_y >= lo_y { hi_y - lo_y } else { 0 };

    proof {
        assert(ov_x <= crate::COORD_LIMIT && ov_y <= crate::COORD_LIMIT);
        assert(ov_x * ov_y <= crate::COORD_LIMIT * crate::COORD_LIMIT) by (nonlinear_arith)
            requires
                0 <= ov_x <= crate::COORD_LIMIT,
                0 <= ov_y <= crate::COORD_LIMIT,
        ;
        assert(a.w * a.h <= crate::COORD_LIMIT * crate::COORD_LIMIT) by (nonlinear_arith)
            requires
                0 <= a.w <= crate::COORD_LIMIT,
                0 <= a.h <= crate::COORD_LIMIT,
        ;
        assert(b.w * b.h <= crate::COORD_LIMIT * crate::COORD_LIMIT) by (nonlinear_arith)
            requires
                0 <= b.w <= crate::COORD_LIMIT,
                0 <= b.h <= crate::COORD_LIMIT,
        ;
        assert(0 <= ov_x * ov_y) by (nonlinear_arith)
            requires
                0 <= ov_x,
                0 <= ov_y,
        ;
        assert(0 <= a.w * a.h) by (nonlinear_arith)
            requires
                0 <= a.w,
                0 <= a.h,
        ;
        assert(0 <= b.w * b.h) by (nonlinear_arith)
            requires
                0 <= b.w,
                0 <= b.h,
        ;
        assert(ov_x * ov_y <= a.w * a.h) by (nonlinear_arith)
            requires
                0 <= ov_x <= a.w,
                0 <= ov_y <= a.h,
        ;
    }
    let inter = ov_x * ov_y;
    let area_a = a.w * a.h;
    let area_b = b.w * b.h;
    let union = area_a + area_b - inter;

    if union <= 0 {
        false
    } else {
        proof {
            let lim = crate::COORD_LIMIT as int;
            assert(inter * den <= 2 * lim * lim * 1000) by (nonlinear_arith)
                requires
                    0 <= inter <= lim * lim,
                    0 < den <= 1000,
            ;
            assert(union * num <= 2 * lim * lim * 1000 && union * num >= 0) by (nonlinear_arith)
                requires
                    0 < union <= 2 * lim * lim,
                    0 <= num <= 1000,
            ;
        }
        inter * den > union * num
    }
}

} // verus!
