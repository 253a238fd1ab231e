//! Text-line segmentation by row-density profiling.
//!
//! For one block's pixel region the segmenter counts dark pixels per row,
//! smooths the row densities with a radius-1 moving average, derives an
//! adaptive threshold (15% of the mean non-zero density, floored at 0.005),
//! and turns each maximal run of at least three above-threshold rows into
//! one line band.  Densities are rationals with denominator `6 * width`,
//! so every comparison is exact.

use vstd::prelude::*;
use crate::blocks::LineInfo;

verus! {

/// The pixel at byte offset `idx` is dark: its luminance
/// `0.299 R + 0.587 G + 0.114 B` is below 160 (out of 255).  A pixel whose
/// bytes would run past the buffer is never dark.
pub open spec fn spec_is_dark(rgb: Seq<u8>, idx: int) -> bool {
    idx + 2 < rgb.len()
        && 299 * rgb[idx] + 587 * rgb[idx + 1] + 114 * rgb[idx + 2] < 160000
}

/// Number of dark pixels among the first `cols` pixels of region row `row`.
/// The region starts at pixel `(px_x, px_y)` of a bitmap `img_w` wide.
pub open spec fn spec_dark_count(
    rgb: Seq<u8>, img_w: int, px_x: int, px_y: int, row: int, cols: int,
) -> int
    decreases cols,
{
    if cols <= 0 {
        0
    } else {
        spec_dark_count(rgb, img_w, px_x, px_y, row, cols - 1)
            + if spec_is_dark(rgb, ((px_y + row) * img_w + px_x + (cols - 1)) * 3) { 1int } else { 0int }
    }
}

/// Number of rows in the radius-1 smoothing window of row `r`.
pub open spec fn spec_window_len(r: int, px_h: int) -> int {
    (if r > 0 { 1int } else { 0int }) + 1 + (if r + 1 < px_h { 1int } else { 0int })
}

/// Sum of the dark counts over the smoothing window of row `r`.
pub open spec fn spec_window_sum(
    rgb: Seq<u8>, img_w: int, px_x: int, px_y: int, px_w: int, px_h: int, r: int,
) -> int {
    (if r > 0 { spec_dark_count(rgb, img_w, px_x, px_y, r - 1, px_w) } else { 0int })
        + spec_dark_count(rgb, img_w, px_x, px_y, r, px_w)
        + (if r + 1 < px_h { spec_dark_count(rgb, img_w, px_x, px_y, r + 1, px_w) } else { 0int })
}

/// Smoothed density of row `r`, scaled by the common denominator
/// `6 * px_w`: the window average `sum / (len * px_w)` times `6 * px_w`.
pub open spec fn spec_s6(
    rgb: Seq<u8>, img_w: int, px_x: int, px_y: int, px_w: int, px_h: int, r: int,
) -> int {
    (6int / spec_window_len(r, px_h)) * spec_window_sum(rgb, img_w, px_x, px_y, px_w, px_h, r)
}

/// The smoothed density of row `r` exceeds 0.005.
pub open spec fn spec_nonzero(
    rgb: Seq<u8>, img_w: int, px_x: int, px_y: int, px_w: int, px_h: int, r: int,
) -> bool {
    100 * spec_s6(rgb, img_w, px_x, px_y, px_w, px_h, r) > 3 * px_w
}

/// Number of non-zero-density rows among the first `upto` rows.
pub open spec fn spec_nz_count(
    rgb: Seq<u8>, img_w: int, px_x: int, px_y: int, px_w: int, px_h: int, upto: int,
) -> int
    decreases upto,
{
    if upto <= 0 {
        0
    } else {
        spec_nz_count(rgb, img_w, px_x, px_y, px_w, px_h, upto - 1)
            + if spec_nonzero(rgb, img_w, px_x, px_y, px_w, px_h, upto - 1) { 1int } else { 0int }
    }
}

/// Sum of the scaled densities of the non-zero rows among the first `upto`.
pub open spec fn spec_nz_sum(
    rgb: Seq<u8>, img_w: int, px_x: int, px_y: int, px_w: int, px_h: int, upto: int,
) -> int
    decreases upto,
{
    if upto <= 0 {
        0
    } else {
        spec_nz_sum(rgb, img_w, px_x, px_y, px_w, px_h, upto - 1)
            + if spec_nonzero(rgb, img_w, px_x, px_y, px_w, px_h, upto - 1) {
                spec_s6(rgb, img_w, px_x, px_y, px_w, px_h, upto - 1)
            } else {
                0int
            }
    }
}

/// Row `r` is above the adaptive threshold
/// `max(0.15 * mean-non-zero-density, 0.005)`.  With no non-zero rows the
/// threshold is 0.005 and no row is above it.
pub open spec fn spec_above(
    rgb: Seq<u8>, img_w: int, px_x: int, px_y: int, px_w: int, px_h: int, r: int,
) -> bool {
    let k = spec_nz_count(rgb, img_w, px_x, px_y, px_w, px_h, px_h);
    let total = spec_nz_sum(rgb, img_w, px_x, px_y, px_w, px_h, px_h);
    let s = spec_s6(rgb, img_w, px_x, px_y, px_w, px_h, r);
    k > 0 && 20 * k * s > 3 * total && 100 * s > 3 * px_w
}

/// Maximal runs of above-threshold rows of length at least three, scanning
/// from row `i` with a possibly open run started at `cur`.  Each run is a
/// half-open row interval.
pub open spec fn spec_runs_from(above: Seq<bool>, i: int, cur: Option<int>) -> Seq<(int, int)>
    decreases above.len() - i,
{
    if i < 0 || i >= above.len() {
        match cur {
            Option::Some(st) => if above.len() - st >= 3 && st <= above.len() {
                seq![(st, above.len() as int)]
            } else {
                Seq::empty()
            },
            Option::None => Seq::empty(),
        }
    } else if above[i] {
        spec_runs_from(above, i + 1, if cur is Some { cur } else { Option::Some(i) })
    } else {
        match cur {
            Option::Some(st) => if i - st >= 3 {
                seq![(st, i)] + spec_runs_from(above, i + 1, Option::None)
            } else {
                spec_runs_from(above, i + 1, Option::None)
            },
            Option::None => spec_runs_from(above, i + 1, Option::None),
        }
    }
}

/// The kept runs of the whole profile.
pub open spec fn spec_runs(above: Seq<bool>) -> Seq<(int, int)> {
    spec_runs_from(above, 0, Option::None)
}

/// The above-threshold profile of a region, one entry per region row.
pub open spec fn spec_above_seq(
    rgb: Seq<u8>, img_w: int, px_x: int, px_y: int, px_w: int, px_h: int,
) -> Seq<bool> {
    Seq::new(px_h as nat, |r: int| spec_above(rgb, img_w, px_x, px_y, px_w, px_h, r))
}

/// The band a run maps to: its vertical center and height scaled from
/// bitmap pixels into page points, relative to the block's top edge
/// `block_y`.
pub open spec fn spec_band(run: (int, int), block_y: int, page_h: int, bitmap_h: int) -> LineInfo {
    LineInfo {
        y: (block_y + (run.0 + run.1) * page_h / (2 * bitmap_h)) as i64,
        height: ((run.1 - run.0) * page_h / bitmap_h) as i64,
    }
}

/// The single fallback band spanning a block vertically.
pub open spec fn spec_fallback_band(block_y: int, block_h: int) -> LineInfo {
    LineInfo { y: (block_y + block_h / 2) as i64, height: block_h as i64 }
}

/// The bands of one region: each kept run scaled to page points, or the
/// fallback band when no run survives.
pub open spec fn spec_region_bands(
    rgb: Seq<u8>, img_w: int, px_x: int, px_y: int, px_w: int, px_h: int,
    block_y: int, block_h: int, page_h: int, bitmap_h: int,
) -> Seq<LineInfo> {
    let runs = spec_runs(spec_above_seq(rgb, img_w, px_x, px_y, px_w, px_h));
    if runs.len() == 0 {
        seq![spec_fallback_band(block_y, block_h)]
    } else {
        runs.map(|t: int, run: (int, int)| spec_band(run, block_y, page_h, bitmap_h))
    }
}

/// Page points to bitmap pixels: multiply by `bitmap / page`, rounding
/// half up.
pub open spec fn spec_scale_round(v: int, bitmap: int, page: int) -> int {
    (2 * v * bitmap + page) / (2 * page)
}

/// The pixel region a block's box maps back to, clamped to the bitmap:
/// `(x, y, w, h)` in bitmap pixels.
pub open spec fn spec_block_region(b: crate::geom::BBox, img_w: int, img_h: int, page_w: int, page_h: int) -> (int, int, int, int) {
    let rx0 = spec_scale_round(b.x as int, img_w, page_w);
    let ry0 = spec_scale_round(b.y as int, img_h, page_h);
    let rw0 = spec_scale_round(b.w as int, img_w, page_w);
    let rh0 = spec_scale_round(b.h as int, img_h, page_h);
    let rx = if rx0 <= img_w - 1 { rx0 } else { img_w - 1 };
    let ry = if ry0 <= img_h - 1 { ry0 } else { img_h - 1 };
    let rw = if rw0 <= img_w - rx { rw0 } else { img_w - rx };
    let rh = if rh0 <= img_h - ry { rh0 } else { img_h - ry };
    (rx, ry, rw, rh)
}

/// The line bands of one block: the bands of its pixel region, or one
/// synthetic centered band when the region has no area.
pub open spec fn spec_block_lines(
    b: crate::geom::BBox, rgb: Seq<u8>, img_w: int, img_h: int, page_w: int, page_h: int,
) -> Seq<LineInfo> {
    let region = spec_block_region(b, img_w, img_h, page_w, page_h);
    if region.2 == 0 || region.3 == 0 {
        seq![spec_fallback_band(b.y as int, b.h as int)]
    } else {
        spec_region_bands(rgb, img_w, region.0, region.1, region.2, region.3,
            b.y as int, b.h as int, page_h, img_h)
    }
}

/// Scales one page-point length into bitmap pixels, rounding half up.
fn scale_round(v: i64, bitmap: i64, page: i64) -> (r: i64)
    requires
        0 <= v <= crate::COORD_LIMIT,
        0 < bitmap <= crate::COORD_LIMIT,
        0 < page <= crate::COORD_LIMIT,
    ensures
        r == spec_scale_round(v as int, bitmap as int, page as int),
        0 <= r,
{
    proof {
        assert(0 <= (2 * v) * bitmap <= 2000000000000int) by (nonlinear_arith)
            requires
                0 <= 2 * v <= 2000000,
                0 < bitmap <= 1000000,
        ;
        vstd::arithmetic::div_mod::lemma_div_pos_is_pos(2 * v * bitmap + page, 2 * page);
    }
    (2 * v * bitmap + page) / (2 * page)
}

/// Dark-pixel count of region row `row`.
#[verifier::loop_isolation(false)]
fn row_dark_count(rgb: &Vec<u8>, img_w: usize, px_x: usize, px_y: usize, px_w: usize, row: usize) -> (c: i64)
    requires
        img_w <= crate::COORD_LIMIT,
        px_x <= crate::COORD_LIMIT,
        px_y <= crate::COORD_LIMIT,
        px_w <= crate::COORD_LIMIT,
        row <= crate::COORD_LIMIT,
    ensures
        c == spec_dark_count(rgb@, img_w as int, px_x as int, px_y as int, row as int, px_w as int),
        0 <= c <= px_w,
{
    let mut c: i64 = 0;
    let mut col: usize = 0;
    while col < px_w
        invariant
            img_w <= crate::COORD_LIMIT,
            px_x <= crate::COORD_LIMIT,
            px_y <= crate::COORD_LIMIT,
            px_w <= crate::COORD_LIMIT,
            row <= crate::COORD_LIMIT,
            col <= px_w,
            c == spec_dark_count(rgb@, img_w as int, px_x as int, px_y as int, row as int, col as int),
            0 <= c <= col,
        decreases px_w - col,
    {
        proof {
            assert(0 <= (px_y + row) * (img_w as int) <= 2000000000000int) by (nonlinear_arith)
                requires
                    0 <= px_y + row <= 2000000,
                    0 <= img_w as int <= 1000000,
            ;
        }
        let row_base: u64 = (px_y as u64 + row as u64) * (img_w as u64);
        let idx: u64 = (row_base + px_x as u64 + col as u64) * 3;
        if idx + 2 < rgb.len() as u64 {
            proof {
                assert(idx + 2 < rgb@.len());
                assert(idx as usize == idx);
            }
            let i0 = idx as usize;
            let red = rgb[i0] as i64;
            let green = rgb[i0 + 1] as i64;
            let blue = rgb[i0 + 2] as i64;
            if 299 * red + 587 * green + 114 * blue < 160000 {
                c = c + 1;
            }
        }
        col = col + 1;
    }
    c
}

/// Builds the band of one run, scaled into page points.
fn band_from_run(st: usize, end: usize, block_y: i64, page_h: i64, bitmap_h: i64) -> (band: LineInfo)
    requires
        st + 3 <= end,
        end <= bitmap_h,
        0 <= block_y <= crate::COORD_LIMIT,
        0 < page_h <= crate::COORD_LIMIT,
        0 < bitmap_h <= crate::COORD_LIMIT,
    ensures
        band == spec_band((st as int, end as int), block_y as int, page_h as int, bitmap_h as int),
        band.wf(),
{
    proof {
        assert(0 <= (st + end) * (page_h as int) <= 2000000000000int) by (nonlinear_arith)
            requires
                0 <= st + end <= 2000000,
                0 < page_h <= 1000000,
        ;
        assert(0 <= (end - st) * (page_h as int) <= 1000000000000int) by (nonlinear_arith)
            requires
                0 <= end - st <= 1000000,
                0 < page_h <= 1000000,
        ;
        lemma_band_run_bounds(st as int, end as int, page_h as int, bitmap_h as int);
    }
    LineInfo {
        y: block_y + ((st + end) as i64) * page_h / (2 * bitmap_h),
        height: ((end - st) as i64) * page_h / bitmap_h,
    }
}

/// The scaled center and height of a run inside the bitmap stay within one
/// page height.
proof fn lemma_band_run_bounds(st: int, end: int, page_h: int, bitmap_h: int)
    requires
        0 <= st,
        st + 3 <= end,
        end <= bitmap_h,
        0 < page_h,
        0 < bitmap_h,
    ensures
        0 <= (st + end) * page_h / (2 * bitmap_h) <= page_h,
        0 <= (end - st) * page_h / bitmap_h <= page_h,
{
    vstd::arithmetic::div_mod::lemma_div_pos_is_pos((st + end) * page_h, 2 * bitmap_h);
    vstd::arithmetic::div_mod::lemma_div_pos_is_pos((end - st) * page_h, bitmap_h);
    assert(0 <= (st + end) * page_h && (st + end) * page_h <= (2 * bitmap_h) * page_h) by (nonlinear_arith)
        requires
            0 <= st + end <= 2 * bitmap_h,
            0 < page_h,
    ;
    assert(0 <= (end - st) * page_h && (end - st) * page_h <= bitmap_h * page_h) by (nonlinear_arith)
        requires
            0 <= end - st <= bitmap_h,
            0 < page_h,
    ;
    vstd::arithmetic::div_mod::lemma_div_is_ordered((st + end) * page_h, (2 * bitmap_h) * page_h, 2 * bitmap_h);
    vstd::arithmetic::div_mod::lemma_div_is_ordered((end - st) * page_h, bitmap_h * page_h, bitmap_h);
    vstd::arithmetic::div_mod::lemma_div_multiples_vanish(page_h, 2 * bitmap_h);
    vstd::arithmetic::div_mod::lemma_div_multiples_vanish(page_h, bitmap_h);
}

/// Segments one pixel region into line bands, in page points relative to
/// the block top `block_y`.  Always returns at least one band.
#[verifier::loop_isolation(false)]
pub fn segment_region(
    rgb: &Vec<u8>,
    img_w: usize,
    px_x: usize,
    px_y: usize,
    px_w: usize,
    px_h: usize,
    block_y: i64,
    block_h: i64,
    page_h: i64,
    bitmap_h: i64,
) -> (r: Vec<LineInfo>)
    requires
        img_w <= crate::COORD_LIMIT,
        px_x <= crate::COORD_LIMIT,
        px_y <= crate::COORD_LIMIT,
        0 < px_w <= crate::COORD_LIMIT,
        0 < px_h <= bitmap_h,
        0 <= block_y <= crate::COORD_LIMIT,
        0 <= block_h <= crate::COORD_LIMIT,
        0 < page_h <= crate::COORD_LIMIT,
        0 < bitmap_h <= crate::COORD_LIMIT,
    ensures
        r@ == spec_region_bands(
            rgb@, img_w as int, px_x as int, px_y as int, px_w as int, px_h as int,
            block_y as int, block_h as int, page_h as int, bitmap_h as int),
        r@.len() >= 1,
        forall|i: int| 0 <= i < r@.len() ==> (#[trigger] r@[i]).wf(),
{
    let ghost gw = img_w as int;
    let ghost gx = px_x as int;
    let ghost gy = px_y as int;
    let ghost gpw = px_w as int;
    let ghost gph = px_h as int;

    // dark-pixel counts per region row
    let mut dark: Vec<i64> = Vec::new();
    let mut row: usize = 0;
    while row < px_h
        invariant
            img_w <= crate::COORD_LIMIT,
            px_x <= crate::COORD_LIMIT,
            px_y <= crate::COORD_LIMIT,
            0 < px_w <= crate::COORD_LIMIT,
            0 < px_h <= crate::COORD_LIMIT,
            row <= px_h,
            dark@.len() == row,
            forall|t: int| 0 <= t < row
                ==> #[trigger] dark@[t] == spec_dark_count(rgb@, gw, gx, gy, t, gpw)
                    && 0 <= dark@[t] <= gpw,
        decreases px_h - row,
    {
        let c = row_dark_count(rgb, img_w, px_x, px_y, px_w, row);
        dark.push(c);
        row = row + 1;
    }

    // smoothed densities, scaled by 6 * px_w
    let mut s6: Vec<i64> = Vec::new();
    let mut r2: usize = 0;
    while r2 < px_h
        invariant
            0 < px_w <= crate::COORD_LIMIT,
            0 < px_h <= crate::COORD_LIMIT,
            dark@.len() == px_h,
            forall|t: int| 0 <= t < px_h
                ==> #[trigger] dark@[t] == spec_dark_count(rgb@, gw, gx, gy, t, gpw)
                    && 0 <= dark@[t] <= gpw,
            r2 <= px_h,
            s6@.len() == r2,
            forall|t: int| 0 <= t < r2
                ==> #[trigger] s6@[t] == spec_s6(rgb@, gw, gx, gy, gpw, gph, t)
                    && 0 <= s6@[t] <= 6 * gpw,
        decreases px_h - r2,
    {
        let prev: i64 = if r2 > 0 { dark[r2 - 1] } else { 0 };
        let next: i64 = if r2 + 1 < px_h { dark[r2 + 1] } else { 0 };
        let sum = prev + dark[r2] + next;
        let len: i64 = (if r2 > 0 { 1i64 } else { 0i64 }) + 1
            + (if r2 + 1 < px_h { 1i64 } else { 0i64 });
        proof {
            assert(sum == spec_window_sum(rgb@, gw, gx, gy, gpw, gph, r2 as int));
            assert(len == spec_window_len(r2 as int, gph));
            assert(1 <= len && len <= 3);
            assert(0 <= sum && sum <= 3 * gpw);
            if len == 1 {
                assert(6int / (len as int) == 6 && sum <= gpw);
                assert((6int / (len as int)) * sum == 6 * sum);
            } else if len == 2 {
                assert(6int / (len as int) == 3 && sum <= 2 * gpw);
                assert((6int / (len as int)) * sum == 3 * sum);
            } else {
                assert(6int / (len as int) == 2);
                assert((6int / (len as int)) * sum == 2 * sum);
            }
            assert(0 <= (6int / (len as int)) * sum <= 6 * gpw);
        }
        let mult: i64 = 6 / len;
        let v = mult * sum;
        proof {
            assert(v == spec_s6(rgb@, gw, gx, gy, gpw, gph, r2 as int));
        }
        s6.push(v);
        r2 = r2 + 1;
    }

    // adaptive threshold ingredients: count and sum of non-zero densities
    let limit3w: i64 = 3 * (px_w as i64);
    let mut k: i64 = 0;
    let mut total: i64 = 0;
    let mut r3: usize = 0;
    while r3 < px_h
        invariant
            0 < px_w <= crate::COORD_LIMIT,
            0 < px_h <= crate::COORD_LIMIT,
            limit3w == 3 * gpw,
            s6@.len() == px_h,
            forall|t: int| 0 <= t < px_h
                ==> #[trigger] s6@[t] == spec_s6(rgb@, gw, gx, gy, gpw, gph, t)
                    && 0 <= s6@[t] <= 6 * gpw,
            r3 <= px_h,
            k == spec_nz_count(rgb@, gw, gx, gy, gpw, gph, r3 as int),
            total == spec_nz_sum(rgb@, gw, gx, gy, gpw, gph, r3 as int),
            0 <= k <= r3,
            0 <= total <= 6 * gpw * r3,
        decreases px_h - r3,
    {
        let v = s6[r3];
        proof {
            assert(total <= 6000000000000int) by (nonlinear_arith)
                requires
                    0 <= total,
                    total <= 6 * gpw * r3,
                    0 < gpw <= 1000000,
                    0 <= r3 as int <= 1000000,
            ;
        }
        if 100 * v > limit3w {
            k = k + 1;
            total = total + v;
        }
        proof {
            assert(0 <= total <= 6 * gpw * (r3 + 1)) by (nonlinear_arith)
                requires
                    0 <= total,
                    total <= 6 * gpw * r3 + 6 * gpw,
                    0 < gpw,
            ;
        }
        r3 = r3 + 1;
    }

    // the above-threshold profile
    let mut above: Vec<bool> = Vec::new();
    let mut r4: usize = 0;
    while r4 < px_h
        invariant
            0 < px_w <= crate::COORD_LIMIT,
            0 < px_h <= crate::COORD_LIMIT,
            limit3w == 3 * gpw,
            s6@.len() == px_h,
            forall|t: int| 0 <= t < px_h
                ==> #[trigger] s6@[t] == spec_s6(rgb@, gw, gx, gy, gpw, gph, t)
                    && 0 <= s6@[t] <= 6 * gpw,
            k == spec_nz_count(rgb@, gw, gx, gy, gpw, gph, gph),
            total == spec_nz_sum(rgb@, gw, gx, gy, gpw, gph, gph),
            0 <= k <= px_h,
            0 <= total <= 6 * gpw * gph,
            r4 <= px_h,
            above@.len() == r4,
            forall|t: int| 0 <= t < r4
                ==> #[trigger] above@[t] == spec_above(rgb@, gw, gx, gy, gpw, gph, t),
        decreases px_h - r4,
    {
        let v = s6[r4];
        proof {
            assert(0 <= (20 * k) * v <= 120000000000000int) by (nonlinear_arith)
                requires
                    0 <= 20 * k <= 20000000,
                    0 <= v <= 6000000,
            ;
            assert(0 <= total <= 6000000000000int) by (nonlinear_arith)
                requires
                    0 <= total,
                    total <= 6 * gpw * gph,
                    0 < gpw <= 1000000,
                    0 < gph <= 1000000,
            ;
        }
        let is_above = k > 0 && 20 * k * v > 3 * total && 100 * v > limit3w;
        above.push(is_above);
        r4 = r4 + 1;
    }
    proof {
        assert(above@ =~= spec_above_seq(rgb@, gw, gx, gy, gpw, gph));
    }
    let ghost aseq = spec_above_seq(rgb@, gw, gx, gy, gpw, gph);

    // extract maximal runs of at least three above-threshold rows
    let mut out: Vec<LineInfo> = Vec::new();
    let ghost mut done: Seq<(int, int)> = Seq::empty();
    let mut run_start: Option<usize> = None;
    let mut r5: usize = 0;
    proof {
        assert(done + spec_runs_from(aseq, 0, Option::None) =~= spec_runs(aseq));
    }
    while r5 < px_h
        invariant
            0 < px_h <= crate::COORD_LIMIT,
            0 <= block_y <= crate::COORD_LIMIT,
            0 <= block_h <= crate::COORD_LIMIT,
            0 < page_h <= crate::COORD_LIMIT,
            0 < bitmap_h <= crate::COORD_LIMIT,
            px_h <= bitmap_h,
            above@.len() == px_h,
            above@ == aseq,
            aseq.len() == gph,
            r5 <= px_h,
            match run_start {
                Option::Some(st) => st < r5,
                Option::None => true,
            },
            spec_runs(aseq) == done + spec_runs_from(aseq, r5 as int,
                match run_start {
                    Option::Some(st) => Option::Some(st as int),
                    Option::None => Option::<int>::None,
                }),
            out@.len() == done.len(),
            forall|t: int| 0 <= t < done.len()
                ==> #[trigger] out@[t]
                    == spec_band(done[t], block_y as int, page_h as int, bitmap_h as int)
                    && 0 <= done[t].0 && done[t].0 + 3 <= done[t].1 && done[t].1 <= gph,
            forall|t: int| 0 <= t < out@.len() ==> (#[trigger] out@[t]).wf(),
        decreases px_h - r5,
    {
        let ghost cur = match run_start {
            Option::Some(st) => Option::Some(st as int),
            Option::None => Option::<int>::None,
        };
        if above[r5] {
            if run_start.is_none() {
                run_start = Some(r5);
            }
            proof {
                let newcur = match run_start {
                    Option::Some(st) => Option::Some(st as int),
                    Option::None => Option::<int>::None,
                };
                assert(spec_runs_from(aseq, r5 as int, cur)
                    == spec_runs_from(aseq, r5 + 1, newcur));
            }
        } else {
            if let Some(st) = run_start {
                let run_len = r5 - st;
                if run_len >= 3 {
                    let band = band_from_run(st, r5, block_y, page_h, bitmap_h);
                    proof {
                        assert(spec_runs_from(aseq, r5 as int, cur)
                            == seq![(st as int, r5 as int)] + spec_runs_from(aseq, r5 + 1, Option::None));
                        assert((done + seq![(st as int, r5 as int)]) + spec_runs_from(aseq, r5 + 1, Option::None)
                            =~= done + (seq![(st as int, r5 as int)] + spec_runs_from(aseq, r5 + 1, Option::None)));
                        done = done + seq![(st as int, r5 as int)];
                    }
                    let ghost out_before = out@;
                    out.push(band);
                    proof {
                        assert forall|t: int| 0 <= t < done.len()
                            implies #[trigger] out@[t]
                                == spec_band(done[t], block_y as int, page_h as int, bitmap_h as int)
                                && 0 <= done[t].0 && done[t].0 + 3 <= done[t].1 && done[t].1 <= gph by {
                            if t < done.len() - 1 {
                                assert(out@[t] == out_before[t]);
                                assert(done[t] == done.drop_last()[t]);
                            } else {
                                assert(out@[t] == band);
                                assert(done[t] == (st as int, r5 as int));
                            }
                        }
                    }
                } else {
                    proof {
                        assert(spec_runs_from(aseq, r5 as int, cur)
                            == spec_runs_from(aseq, r5 + 1, Option::None));
                    }
                }
            } else {
                proof {
                    assert(spec_runs_from(aseq, r5 as int, cur)
                        == spec_runs_from(aseq, r5 + 1, Option::None));
                }
            }
            run_start = None;
        }
        r5 = r5 + 1;
    }

    // a run reaching the last row
    if let Some(st) = run_start {
        let run_len = px_h - st;
        if run_len >= 3 {
            let band = band_from_run(st, px_h, block_y, page_h, bitmap_h);
            proof {
                assert(spec_runs_from(aseq, gph, Option::Some(st as int)) =~= seq![(st as int, gph)]);
                done = done + seq![(st as int, gph)];
            }
            let ghost out_before = out@;
            out.push(band);
            proof {
                assert forall|t: int| 0 <= t < done.len()
                    implies #[trigger] out@[t]
                        == spec_band(done[t], block_y as int, page_h as int, bitmap_h as int) by {
                    if t < done.len() - 1 {
                        assert(out@[t] == out_before[t]);
                        assert(done[t] == done.drop_last()[t]);
                    } else {
                        assert(out@[t] == band);
                        assert(done[t] == (st as int, gph));
                    }
                }
            }
        } else {
            proof {
                assert(spec_runs_from(aseq, gph, Option::Some(st as int)) =~= Seq::<(int, int)>::empty());
                assert(done + Seq::<(int, int)>::empty() =~= done);
            }
        }
    } else {
        proof {
            assert(spec_runs_from(aseq, gph, Option::<int>::None) =~= Seq::<(int, int)>::empty());
            assert(done + Seq::<(int, int)>::empty() =~= done);
        }
    }
    proof {
        assert(done =~= spec_runs(aseq));
    }

    if out.len() == 0 {
        let band = LineInfo { y: block_y + block_h / 2, height: block_h };
        proof {
            assert(band == spec_fallback_band(block_y as int, block_h as int));
        }
        out.push(band);
        proof {
            assert(out@ =~= spec_region_bands(rgb@, gw, gx, gy, gpw, gph,
                block_y as int, block_h as int, page_h as int, bitmap_h as int));
        }
    } else {
        proof {
            let runs = spec_runs(aseq);
            let mapped = runs.map(|t: int, run: (int, int)|
                spec_band(run, block_y as int, page_h as int, bitmap_h as int));
            assert forall|t: int| 0 <= t < out@.len()
                implies #[trigger] out@[t] == mapped[t] by {
                assert(out@[t] == spec_band(done[t], block_y as int, page_h as int, bitmap_h as int));
            }
            assert(out@ =~= mapped);
        }
    }
    out
}


/// All fields except the detected lines agree.
pub open spec fn same_but_lines(a: crate::blocks::LayoutBlock, b: crate::blocks::LayoutBlock) -> bool {
    a.bbox == b.bbox && a.class_id == b.class_id && a.confidence == b.confidence
        && a.order == b.order
}

/// Runs line segmentation over every navigable block, replacing its
/// `lines`; non-navigable blocks keep theirs.  Every navigable block ends
/// up with at least one line band.
#[verifier::loop_isolation(false)]
pub fn detect_lines_for_blocks(
    blocks: &mut Vec<crate::blocks::LayoutBlock>,
    rgb: &Vec<u8>,
    img_w: usize,
    img_h: usize,
    page_w: i64,
    page_h: i64,
)
    requires
        crate::nms::blocks_wf(old(blocks)@),
        0 < img_w <= crate::COORD_LIMIT,
        0 < img_h <= crate::COORD_LIMIT,
        0 < page_w <= crate::COORD_LIMIT,
        0 < page_h <= crate::COORD_LIMIT,
    ensures
        final(blocks)@.len() == old(blocks)@.len(),
        forall|k: int| 0 <= k < old(blocks)@.len()
            ==> same_but_lines(#[trigger] old(blocks)@[k], final(blocks)@[k]),
        forall|k: int| 0 <= k < old(blocks)@.len()
            && crate::blocks::spec_is_navigable(old(blocks)@[k].class_id)
            ==> (#[trigger] final(blocks)@[k]).lines@ == spec_block_lines(
                old(blocks)@[k].bbox, rgb@, img_w as int, img_h as int,
                page_w as int, page_h as int),
        forall|k: int| 0 <= k < old(blocks)@.len()
            && !crate::blocks::spec_is_navigable(old(blocks)@[k].class_id)
            ==> (#[trigger] final(blocks)@[k]).lines@ == old(blocks)@[k].lines@,
        crate::nms::blocks_wf(final(blocks)@),
        forall|k: int| 0 <= k < old(blocks)@.len()
            && crate::blocks::spec_is_navigable(old(blocks)@[k].class_id)
            ==> (#[trigger] final(blocks)@[k]).lines@.len() >= 1,
{
    let ghost orig = old(blocks)@;
    let n = blocks.len();
    let mut k: usize = 0;
    while k < n
        invariant
            n == orig.len(),
            blocks@.len() == n,
            k <= n,
            forall|t: int| 0 <= t < n
                ==> same_but_lines(#[trigger] orig[t], blocks@[t]),
            forall|t: int| 0 <= t < k
                && crate::blocks::spec_is_navigable(orig[t].class_id)
                ==> (#[trigger] blocks@[t]).lines@ == spec_block_lines(
                    orig[t].bbox, rgb@, img_w as int, img_h as int,
                    page_w as int, page_h as int),
            forall|t: int| 0 <= t < n
                && !(0 <= t < k && crate::blocks::spec_is_navigable(orig[t].class_id))
                ==> (#[trigger] blocks@[t]).lines@ == orig[t].lines@,
            crate::nms::blocks_wf(blocks@),
            forall|t: int| 0 <= t < k
                && crate::blocks::spec_is_navigable(orig[t].class_id)
                ==> (#[trigger] blocks@[t]).lines@.len() >= 1,
        decreases n - k,
    {
        if is_navigable_block(&blocks[k]) {
            let b = blocks[k].bbox;
            let rx0 = scale_round(b.x, img_w as i64, page_w);
            let ry0 = scale_round(b.y, img_h as i64, page_h);
            let rw0 = scale_round(b.w, img_w as i64, page_w);
            let rh0 = scale_round(b.h, img_h as i64, page_h);
            let rx = if rx0 <= img_w as i64 - 1 { rx0 } else { img_w as i64 - 1 };
            let ry = if ry0 <= img_h as i64 - 1 { ry0 } else { img_h as i64 - 1 };
            let rw = if rw0 <= img_w as i64 - rx { rw0 } else { img_w as i64 - rx };
            let rh = if rh0 <= img_h as i64 - ry { rh0 } else { img_h as i64 - ry };
            let lines: Vec<LineInfo> = if rw == 0 || rh == 0 {
                let mut ls: Vec<LineInfo> = Vec::new();
                ls.push(LineInfo { y: b.y + b.h / 2, height: b.h });
                proof {
                    assert(ls@ =~= seq![spec_fallback_band(b.y as int, b.h as int)]);
                }
                ls
            } else {
                segment_region(rgb, img_w, rx as usize, ry as usize, rw as usize, rh as usize,
                    b.y, b.h, page_h, img_h as i64)
            };
            proof {
                assert(lines@ == spec_block_lines(b, rgb@, img_w as int, img_h as int,
                    page_w as int, page_h as int));
            }
            let ghost before = blocks@;
            let old_block = blocks.remove(k);
            let new_block = crate::blocks::LayoutBlock {
                bbox: old_block.bbox,
                class_id: old_block.class_id,
                confidence: old_block.confidence,
                order: old_block.order,
                lines,
            };
            blocks.insert(k, new_block);
            proof {
                assert(blocks@ =~= before.update(k as int, new_block));
            }
        }
        k = k + 1;
    }
}

/// Whether a block's class is navigable.
fn is_navigable_block(b: &crate::blocks::LayoutBlock) -> (r: bool)
    ensures
        r == crate::blocks::spec_is_navigable(b.class_id),
{
    crate::blocks::is_navigable(b.class_id)
}

/// A row whose first `cols` pixels are all dark counts them all.
proof fn lemma_dark_count_full(rgb: Seq<u8>, img_w: int, px_x: int, px_y: int, row: int, cols: int)
    requires
        0 <= cols,
        forall|c: int| 0 <= c < cols
            ==> #[trigger] spec_is_dark(rgb, ((px_y + row) * img_w + px_x + c) * 3),
    ensures
        spec_dark_count(rgb, img_w, px_x, px_y, row, cols) == cols,
    decreases cols,
{
    if cols > 0 {
        lemma_dark_count_full(rgb, img_w, px_x, px_y, row, cols - 1);
    }
}

/// A row with no dark pixel counts none.
proof fn lemma_dark_count_zero(rgb: Seq<u8>, img_w: int, px_x: int, px_y: int, row: int, cols: int)
    requires
        0 <= cols,
        forall|c: int| 0 <= c < cols
            ==> !#[trigger] spec_is_dark(rgb, ((px_y + row) * img_w + px_x + c) * 3),
    ensures
        spec_dark_count(rgb, img_w, px_x, px_y, row, cols) == 0,
    decreases cols,
{
    if cols > 0 {
        lemma_dark_count_zero(rgb, img_w, px_x, px_y, row, cols - 1);
    }
}

/// With no above-threshold row left, no run is found.
proof fn lemma_runs_all_false(above: Seq<bool>, i: int)
    requires
        0 <= i,
        forall|t: int| i <= t < above.len() ==> !above[t],
    ensures
        spec_runs_from(above, i, Option::None) == Seq::<(int, int)>::empty(),
    decreases above.len() - i,
{
    if i < above.len() {
        lemma_runs_all_false(above, i + 1);
    }
}

/// Rows before the band neither open nor close a run.
proof fn lemma_runs_skip_false(above: Seq<bool>, i: int, p: int, q: int)
    requires
        0 <= i <= p,
        p + q <= above.len(),
        3 <= q,
        forall|t: int| 0 <= t < above.len() ==> above[t] == (p <= t < p + q),
    ensures
        spec_runs_from(above, i, Option::None) == spec_runs_from(above, p, Option::None),
    decreases p - i,
{
    if i < p {
        lemma_runs_skip_false(above, i + 1, p, q);
    }
}

/// Inside the band the open run just continues.
proof fn lemma_runs_in_band(above: Seq<bool>, i: int, p: int, q: int)
    requires
        p < i <= p + q,
        0 <= p,
        p + q <= above.len(),
        3 <= q,
        forall|t: int| 0 <= t < above.len() ==> above[t] == (p <= t < p + q),
    ensures
        spec_runs_from(above, i, Option::Some(p))
            == spec_runs_from(above, p + q, Option::Some(p)),
    decreases p + q - i,
{
    if i < p + q {
        lemma_runs_in_band(above, i + 1, p, q);
    }
}

/// A profile that is one band of at least three rows yields exactly that
/// band's run.
proof fn lemma_runs_single_band(above: Seq<bool>, p: int, q: int)
    requires
        0 <= p,
        p + q <= above.len(),
        3 <= q,
        forall|t: int| 0 <= t < above.len() ==> above[t] == (p <= t < p + q),
    ensures
        spec_runs(above) == seq![(p, p + q)],
    decreases above.len(),
{
    lemma_runs_skip_false(above, 0, p, q);
    assert(spec_runs_from(above, p, Option::None)
        == spec_runs_from(above, p + 1, Option::Some(p)));
    lemma_runs_in_band(above, p + 1, p, q);
    if p + q == above.len() {
        assert(spec_runs_from(above, p + q, Option::Some(p)) =~= seq![(p, p + q)]);
    } else {
        assert(spec_runs_from(above, p + q, Option::Some(p))
            == seq![(p, p + q)] + spec_runs_from(above, p + q + 1, Option::None));
        lemma_runs_all_false(above, p + q + 1);
        assert(seq![(p, p + q)] + Seq::<(int, int)>::empty() =~= seq![(p, p + q)]);
    }
}

/// Every scaled density stays within six times the region width.
proof fn lemma_s6_bounded(rgb: Seq<u8>, img_w: int, px_x: int, px_y: int, px_w: int, px_h: int, r: int)
    requires
        0 < px_w,
        forall|row: int| 0 <= row < px_h
            ==> 0 <= #[trigger] spec_dark_count(rgb, img_w, px_x, px_y, row, px_w) <= px_w,
        0 <= r < px_h,
    ensures
        0 <= spec_s6(rgb, img_w, px_x, px_y, px_w, px_h, r) <= 6 * px_w,
{
    let len = spec_window_len(r, px_h);
    let sum = spec_window_sum(rgb, img_w, px_x, px_y, px_w, px_h, r);
    assert(1 <= len <= 3);
    if len == 1 {
        assert(0 <= sum <= px_w);
    } else if len == 2 {
        assert(0 <= sum <= 2 * px_w);
    } else {
        assert(0 <= sum <= 3 * px_w);
    }
    assert(0 <= (6int / len) * sum <= 6 * px_w) by (nonlinear_arith)
        requires
            1 <= len <= 3,
            0 <= sum,
            sum <= len * px_w,
            0 < px_w,
    ;
}

/// Counting and summing the non-zero densities stays within the obvious
/// bounds, and any non-zero row makes the count positive.
proof fn lemma_nz_bounds(rgb: Seq<u8>, img_w: int, px_x: int, px_y: int, px_w: int, px_h: int, upto: int)
    requires
        0 < px_w,
        0 <= upto <= px_h,
        forall|row: int| 0 <= row < px_h
            ==> 0 <= #[trigger] spec_dark_count(rgb, img_w, px_x, px_y, row, px_w) <= px_w,
    ensures
        0 <= spec_nz_count(rgb, img_w, px_x, px_y, px_w, px_h, upto) <= upto,
        spec_nz_sum(rgb, img_w, px_x, px_y, px_w, px_h, upto)
            <= 6 * px_w * spec_nz_count(rgb, img_w, px_x, px_y, px_w, px_h, upto),
        forall|r: int| 0 <= r < upto && spec_nonzero(rgb, img_w, px_x, px_y, px_w, px_h, r)
            ==> spec_nz_count(rgb, img_w, px_x, px_y, px_w, px_h, upto) >= 1,
    decreases upto,
{
    if upto > 0 {
        lemma_nz_bounds(rgb, img_w, px_x, px_y, px_w, px_h, upto - 1);
        let kp = spec_nz_count(rgb, img_w, px_x, px_y, px_w, px_h, upto - 1);
        let sp = spec_nz_sum(rgb, img_w, px_x, px_y, px_w, px_h, upto - 1);
        if spec_nonzero(rgb, img_w, px_x, px_y, px_w, px_h, upto - 1) {
            lemma_s6_bounded(rgb, img_w, px_x, px_y, px_w, px_h, upto - 1);
            assert(6 * px_w * (kp + 1) == 6 * px_w * kp + 6 * px_w) by (nonlinear_arith);
        }
    }
}

/// A uniformly blank region yields exactly one fallback band spanning the
/// block.
pub proof fn lemma_blank_region_fallback_band(
    rgb: Seq<u8>, img_w: int, px_x: int, px_y: int, px_w: int, px_h: int,
    block_y: int, block_h: int, page_h: int, bitmap_h: int,
)
    requires
        0 < px_w,
        0 < px_h,
        forall|row: int, col: int|
            0 <= row < px_h && 0 <= col < px_w
                ==> !#[trigger] spec_is_dark(rgb, ((px_y + row) * img_w + px_x + col) * 3),
    ensures
        spec_region_bands(rgb, img_w, px_x, px_y, px_w, px_h,
            block_y, block_h, page_h, bitmap_h)
            == seq![spec_fallback_band(block_y, block_h)],
{
    assert forall|row: int| 0 <= row < px_h
        implies #[trigger] spec_dark_count(rgb, img_w, px_x, px_y, row, px_w) == 0 by {
        lemma_dark_count_zero(rgb, img_w, px_x, px_y, row, px_w);
    }
    let above = spec_above_seq(rgb, img_w, px_x, px_y, px_w, px_h);
    assert forall|t: int| 0 <= t < above.len() implies !above[t] by {
        assert(spec_window_sum(rgb, img_w, px_x, px_y, px_w, px_h, t) == 0);
        assert(spec_s6(rgb, img_w, px_x, px_y, px_w, px_h, t) == 0);
    }
    lemma_runs_all_false(above, 0);
}

/// A region holding one uniform dark band of at least three rows on an
/// otherwise blank background yields exactly one line band, whose center
/// is the dark band's center (the smoothing widens the run by one row on
/// each side, which leaves the center unchanged).
pub proof fn lemma_uniform_band_single_line(
    rgb: Seq<u8>, img_w: int, px_x: int, px_y: int, px_w: int, px_h: int,
    block_y: int, block_h: int, page_h: int, bitmap_h: int, a: int, b: int,
)
    requires
        0 < px_w,
        1 <= a,
        a + 3 <= b,
        b + 1 <= px_h,
        forall|row: int, col: int|
            a <= row < b && 0 <= col < px_w
                ==> #[trigger] spec_is_dark(rgb, ((px_y + row) * img_w + px_x + col) * 3),
        forall|row: int, col: int|
            (0 <= row < a || b <= row < px_h) && 0 <= col < px_w
                ==> !#[trigger] spec_is_dark(rgb, ((px_y + row) * img_w + px_x + col) * 3),
    ensures
        spec_region_bands(rgb, img_w, px_x, px_y, px_w, px_h,
            block_y, block_h, page_h, bitmap_h)
            == seq![spec_band((a - 1, b + 1), block_y, page_h, bitmap_h)],
{
    let w = px_w;
    assert forall|row: int| 0 <= row < px_h
        implies #[trigger] spec_dark_count(rgb, img_w, px_x, px_y, row, px_w)
            == (if a <= row < b { w } else { 0int }) by {
        if a <= row < b {
            lemma_dark_count_full(rgb, img_w, px_x, px_y, row, px_w);
        } else {
            lemma_dark_count_zero(rgb, img_w, px_x, px_y, row, px_w);
        }
    }
    assert forall|row: int| 0 <= row < px_h
        implies 0 <= #[trigger] spec_dark_count(rgb, img_w, px_x, px_y, row, px_w) <= px_w by {}

    // scaled densities: at least 2w on the widened band, zero elsewhere
    assert forall|r: int| 0 <= r < px_h
        implies {
            let s = #[trigger] spec_s6(rgb, img_w, px_x, px_y, px_w, px_h, r);
            (a - 1 <= r <= b ==> 2 * w <= s) && (!(a - 1 <= r <= b) ==> s == 0)
        } by {
        let len = spec_window_len(r, px_h);
        let sum = spec_window_sum(rgb, img_w, px_x, px_y, px_w, px_h, r);
        if a - 1 <= r <= b {
            assert(w <= sum);
            assert(1 <= len <= 3);
            assert(2 * w <= (6int / len) * sum) by (nonlinear_arith)
                requires
                    1 <= len <= 3,
                    w <= sum,
                    0 < w,
            ;
        } else {
            assert(sum == 0);
        }
    }

    // every widened-band row is non-zero, every other row is not
    assert forall|r: int| 0 <= r < px_h
        implies #[trigger] spec_nonzero(rgb, img_w, px_x, px_y, px_w, px_h, r)
            == (a - 1 <= r <= b) by {
        let s = spec_s6(rgb, img_w, px_x, px_y, px_w, px_h, r);
        if a - 1 <= r <= b {
            assert(100 * s >= 200 * w > 3 * w);
        }
    }

    lemma_nz_bounds(rgb, img_w, px_x, px_y, px_w, px_h, px_h);
    let k = spec_nz_count(rgb, img_w, px_x, px_y, px_w, px_h, px_h);
    let total = spec_nz_sum(rgb, img_w, px_x, px_y, px_w, px_h, px_h);
    assert(spec_nonzero(rgb, img_w, px_x, px_y, px_w, px_h, a));
    assert(k >= 1);
    assert(total <= 6 * w * k);

    // the adaptive threshold keeps the whole widened band
    let above = spec_above_seq(rgb, img_w, px_x, px_y, px_w, px_h);
    assert forall|t: int| 0 <= t < above.len()
        implies above[t] == (a - 1 <= t < b + 1) by {
        let s = spec_s6(rgb, img_w, px_x, px_y, px_w, px_h, t);
        if a - 1 <= t <= b {
            assert(20 * k * s >= 20 * k * (2 * w) && 20 * k * (2 * w) > 3 * (6 * w * k))
                by (nonlinear_arith)
                requires
                    1 <= k,
                    0 < w,
                    2 * w <= s,
            ;
            assert(100 * s > 3 * px_w);
        } else {
            assert(s == 0);
        }
    }
    lemma_runs_single_band(above, a - 1, b + 1 - (a - 1));
    assert(spec_runs(above) == seq![(a - 1, b + 1)]);
    let runs = spec_runs(above);
    let mapped = runs.map(|t: int, run: (int, int)|
        spec_band(run, block_y, page_h, bitmap_h));
    assert(mapped =~= seq![spec_band((a - 1, b + 1), block_y, page_h, bitmap_h)]);
}

} // verus!
