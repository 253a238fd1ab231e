//! Rail-mode navigation and camera animation.
//!
//! The navigator owns a cursor over the navigable blocks of one page
//! analysis, activates above a zoom threshold, and computes camera targets:
//! cubic-ease-out snap animations toward the current line, and a held
//! horizontal scroll with a quadratic ease-in velocity ramp, always clamped
//! so the active block never leaves the viewport.
//!
//! Units: page coordinates in page points; zoom in thousandths; camera
//! offsets and window sizes in thousandths of a screen pixel (one page
//! point at zoom `z` spans `z` such units); times in milliseconds.  The
//! host reads the clock and passes timestamps in.

use vstd::prelude::*;
use crate::blocks::{LayoutBlock, LineInfo, PageAnalysis, spec_is_navigable};
use crate::geom::BBox;

verus! {

/// Zoom level (in thousandths) at which rail mode activates.
pub const RAIL_ZOOM_THRESHOLD_MILLI: i64 = 3000;

/// Duration of a snap animation, in milliseconds.
pub const SNAP_DURATION_MS: u64 = 300;

/// Horizontal scroll speed at the start of a hold, in page points per second.
pub const SCROLL_SPEED_START: i64 = 60;

/// Maximum horizontal scroll speed after a long hold, in page points per second.
pub const SCROLL_SPEED_MAX: i64 = 400;

/// Time to ramp from start speed to maximum speed, in milliseconds.
pub const SCROLL_RAMP_MS: u64 = 1500;

/// Largest camera offset magnitude the navigator accepts, in milli-pixels.
pub const CAMERA_LIMIT: i64 = 100_000_000_000;

/// Largest window dimension the navigator accepts, in milli-pixels.
pub const WINDOW_LIMIT: i64 = 20_000_000;

/// Largest zoom the navigator accepts, in thousandths.
pub const ZOOM_LIMIT: i64 = 20_000;

/// Outcome of a cursor movement.
#[derive(Debug, PartialEq, Eq, Structural)]
pub enum NavResult {
    Moved,
    PageBoundaryNext,
    PageBoundaryPrev,
}

/// Horizontal scroll direction while a key is held.
#[derive(Debug, Clone, Copy, PartialEq, Eq, Structural)]
pub enum ScrollDir {
    Forward,
    Backward,
}

/// One running snap of the camera toward a target offset.
#[derive(Debug, Clone, Copy)]
pub struct SnapAnimation {
    pub start_x: i64,
    pub start_y: i64,
    pub target_x: i64,
    pub target_y: i64,
    pub start_ms: u64,
    pub duration_ms: u64,
}

impl SnapAnimation {
    pub open spec fn wf(self) -> bool {
        &&& -CAMERA_LIMIT <= self.start_x <= CAMERA_LIMIT
        &&& -CAMERA_LIMIT <= self.start_y <= CAMERA_LIMIT
        &&& -CAMERA_LIMIT <= self.target_x <= CAMERA_LIMIT
        &&& -CAMERA_LIMIT <= self.target_y <= CAMERA_LIMIT
        &&& 0 < self.duration_ms <= 10_000
    }
}

/// Stateful navigator over the navigable blocks of one page analysis.
pub struct RailNav {
    pub analysis: Option<PageAnalysis>,
    pub navigable_indices: Vec<usize>,
    pub current_block: usize,
    pub current_line: usize,
    pub active: bool,
    pub snap: Option<SnapAnimation>,
    pub scroll_dir: Option<ScrollDir>,
    pub scroll_hold_start_ms: Option<u64>,
}

/// Everything but the scroll state agrees between the two navigators.
pub open spec fn same_except_scroll(a: RailNav, b: RailNav) -> bool {
    a.spec_analysis() == b.spec_analysis()
        && a.spec_nav_indices() == b.spec_nav_indices()
        && a.current_block == b.current_block
        && a.current_line == b.current_line
        && a.active == b.active
        && a.spec_snap() == b.spec_snap()
}

impl RailNav {
    /// The navigable index list is exactly the navigable blocks of the
    /// analysis, in increasing position order.
    pub open spec fn spec_indices_match(self) -> bool {
        match self.analysis {
            Option::Some(a) => {
                &&& forall|k: int| 0 <= k < self.navigable_indices@.len()
                    ==> (#[trigger] self.navigable_indices@[k]) < a.blocks@.len()
                &&& forall|k1: int, k2: int|
                    0 <= k1 < k2 < self.navigable_indices@.len()
                        ==> (#[trigger] self.navigable_indices@[k1])
                            < (#[trigger] self.navigable_indices@[k2])
                &&& forall|k: int| 0 <= k < self.navigable_indices@.len()
                    ==> spec_is_navigable(a.blocks@[(#[trigger] self.navigable_indices@[k]) as int].class_id)
                &&& forall|j: int| 0 <= j < a.blocks@.len()
                    && spec_is_navigable((#[trigger] a.blocks@[j]).class_id)
                    ==> self.navigable_indices@.contains(j as usize)
            },
            Option::None => self.navigable_indices@.len() == 0,
        }
    }

    /// An analysis is loaded and at least one of its blocks is navigable.
    pub open spec fn spec_has_analysis(self) -> bool {
        self.analysis is Some && self.navigable_indices@.len() > 0
    }

    /// The loaded analysis.
    pub open spec fn spec_analysis(self) -> Option<PageAnalysis> {
        self.analysis
    }

    /// The positions of the navigable blocks, in increasing order.
    pub open spec fn spec_nav_indices(self) -> Seq<usize> {
        self.navigable_indices@
    }

    /// The pending snap animation.
    pub open spec fn spec_snap(self) -> Option<SnapAnimation> {
        self.snap
    }

    /// The held scroll direction.
    pub open spec fn spec_scroll_dir(self) -> Option<ScrollDir> {
        self.scroll_dir
    }

    /// When the current scroll hold began.
    pub open spec fn spec_scroll_hold(self) -> Option<u64> {
        self.scroll_hold_start_ms
    }

    /// The block the cursor currently sits on.
    pub open spec fn spec_current_block(self) -> LayoutBlock {
        self.analysis->Some_0.blocks@[self.navigable_indices@[self.current_block as int] as int]
    }

    /// Number of lines of the cursor's block.
    pub open spec fn spec_line_count(self) -> int {
        self.spec_current_block().lines@.len() as int
    }

    /// Structural invariant: the analysis is well formed, the navigable
    /// index is exact, the cursor is in range whenever it can be, and any
    /// pending animation state is bounded.
    pub open spec fn nav_wf(self) -> bool {
        &&& match self.analysis {
            Option::Some(a) => a.wf(),
            Option::None => true,
        }
        &&& self.spec_indices_match()
        &&& (self.spec_has_analysis() ==> {
            &&& self.current_block < self.navigable_indices@.len()
            &&& self.current_line < self.spec_line_count()
        })
        &&& (!self.spec_has_analysis() ==> self.current_block == 0 && self.current_line == 0)
        &&& (self.active ==> self.spec_has_analysis())
        &&& (self.scroll_dir is Some ==> self.active)
        &&& (self.scroll_dir is Some ==> self.scroll_hold_start_ms is Some)
        &&& match self.snap {
            Option::Some(s) => s.wf(),
            Option::None => true,
        }
    }

    /// A fresh, inactive navigator with no analysis.
    pub fn new() -> (r: RailNav)
        ensures
            r.nav_wf(),
            !r.active,
            !r.spec_has_analysis(),
            r.spec_snap() is None,
            r.spec_scroll_dir() is None,
    {
        RailNav {
            analysis: None,
            navigable_indices: Vec::new(),
            current_block: 0,
            current_line: 0,
            active: false,
            snap: None,
            scroll_dir: None,
            scroll_hold_start_ms: None,
        }
    }

    /// Loads a new page analysis: recomputes the navigable index, resets
    /// the cursor to the first navigable block's first line, and cancels
    /// any animation and scroll state.
    pub fn set_analysis(&mut self, analysis: PageAnalysis)
        requires
            analysis.wf(),
        ensures
            final(self).nav_wf(),
            final(self).spec_analysis() == Option::Some(analysis),
            final(self).current_block == 0,
            final(self).current_line == 0,
            final(self).active == (old(self).active && final(self).spec_has_analysis()),
            final(self).spec_snap() is None,
            final(self).spec_scroll_dir() is None,
            final(self).spec_scroll_hold() is None,
            // the index holds exactly the navigable block positions
            final(self).spec_indices_match(),
            final(self).spec_has_analysis()
                == exists|j: int| 0 <= j < analysis.blocks@.len()
                    && spec_is_navigable((#[trigger] analysis.blocks@[j]).class_id),
    {
        let mut idx: Vec<usize> = Vec::new();
        let n = analysis.blocks.len();
        let mut j: usize = 0;
        while j < n
            invariant
                n == analysis.blocks@.len(),
                j <= n,
                forall|k: int| 0 <= k < idx@.len()
                    ==> (#[trigger] idx@[k]) < j,
                forall|k1: int, k2: int| 0 <= k1 < k2 < idx@.len()
                    ==> (#[trigger] idx@[k1]) < (#[trigger] idx@[k2]),
                forall|k: int| 0 <= k < idx@.len()
                    ==> spec_is_navigable(analysis.blocks@[(#[trigger] idx@[k]) as int].class_id),
                forall|t: int| 0 <= t < j
                    && spec_is_navigable((#[trigger] analysis.blocks@[t]).class_id)
                    ==> idx@.contains(t as usize),
            decreases n - j,
        {
            let ghost idx_before = idx@;
            if crate::blocks::is_navigable(analysis.blocks[j].class_id) {
                idx.push(j);
                proof {
                    assert(idx@[idx@.len() - 1] == j);
                    assert(idx@.contains(j));
                }
            }
            proof {
                assert forall|t: int| 0 <= t < j + 1
                    && spec_is_navigable((#[trigger] analysis.blocks@[t]).class_id)
                    implies idx@.contains(t as usize) by {
                    if t < j {
                        let w = choose|w: int| 0 <= w < idx_before.len() && idx_before[w] == t as usize;
                        assert(idx@[w] == t as usize);
                        assert(idx@.contains(t as usize));
                    }
                }
            }
            j = j + 1;
        }
        let ghost has = idx@.len() > 0;
        // deactivate when the new page has nothing navigable
        let keep_active = self.active && idx.len() > 0;
        proof {
            if idx@.len() > 0 {
                assert(spec_is_navigable(analysis.blocks@[idx@[0] as int].class_id));
            }
        }
        *self = RailNav {
            analysis: Some(analysis),
            navigable_indices: idx,
            current_block: 0,
            current_line: 0,
            active: keep_active,
            snap: None,
            scroll_dir: None,
            scroll_hold_start_ms: None,
        };
    }

    /// An analysis with at least one navigable block is loaded.
    pub fn has_analysis(&self) -> (r: bool)
        ensures
            r == self.spec_has_analysis(),
    {
        self.analysis.is_some() && self.navigable_indices.len() > 0
    }

    /// Number of navigable blocks of the loaded analysis.
    pub fn navigable_count(&self) -> (r: usize)
        ensures
            r == self.spec_nav_indices().len(),
    {
        self.navigable_indices.len()
    }

    /// The loaded analysis, if any.
    pub fn analysis(&self) -> (r: Option<&PageAnalysis>)
        ensures
            match r {
                Option::Some(a) => self.spec_analysis() == Option::Some(*a),
                Option::None => self.spec_analysis() is None,
            },
    {
        self.analysis.as_ref()
    }

    /// The block the cursor sits on.
    pub fn current_navigable_block(&self) -> (r: &LayoutBlock)
        requires
            self.spec_has_analysis(),
            self.spec_indices_match(),
            self.current_block < self.navigable_indices@.len(),
        ensures
            *r == self.spec_current_block(),
    {
        let analysis = self.analysis.as_ref().unwrap();
        let block_idx = self.navigable_indices[self.current_block];
        &analysis.blocks[block_idx]
    }

    /// Number of lines of the cursor's block; 0 with nothing navigable.
    pub fn current_line_count(&self) -> (r: usize)
        requires
            self.nav_wf(),
        ensures
            self.spec_has_analysis() ==> r == self.spec_line_count(),
            !self.spec_has_analysis() ==> r == 0,
    {
        if self.navigable_indices.is_empty() || self.analysis.is_none() {
            return 0;
        }
        self.current_navigable_block().lines.len()
    }

    /// The line band the cursor sits on (clamped to the block's last line).
    pub fn current_line_info(&self) -> (r: &LineInfo)
        requires
            self.nav_wf(),
            self.spec_has_analysis(),
        ensures
            *r == self.spec_current_block().lines@[
                if self.current_line < self.spec_current_block().lines@.len() {
                    self.current_line as int
                } else {
                    self.spec_current_block().lines@.len() - 1
                }],
    {
        let block = self.current_navigable_block();
        let count = block.lines.len();
        let i = if self.current_line < count { self.current_line } else { count - 1 };
        &block.lines[i]
    }

    /// A snap animation or a held scroll is in progress.
    pub fn is_animating(&self) -> (r: bool)
        ensures
            r == (self.spec_snap() is Some || self.spec_scroll_dir() is Some),
    {
        self.snap.is_some() || self.scroll_dir.is_some()
    }

    /// Begins a held horizontal scroll in `dir` at time `now_ms`; keeps an
    /// already-running hold in the same direction.
    pub fn start_scroll(&mut self, dir: ScrollDir, now_ms: u64)
        requires
            old(self).nav_wf(),
        ensures
            final(self).nav_wf(),
            !(old(self).active && old(self).spec_has_analysis())
                ==> *final(self) == *old(self),
            old(self).active && old(self).spec_has_analysis()
                && old(self).spec_scroll_dir() == Option::Some(dir)
                ==> *final(self) == *old(self),
            old(self).active && old(self).spec_has_analysis()
                && old(self).spec_scroll_dir() != Option::Some(dir)
                ==> same_except_scroll(*old(self), *final(self))
                    && final(self).spec_scroll_dir() == Option::Some(dir)
                    && final(self).spec_scroll_hold() == Option::Some(now_ms),
    {
        if !self.active || self.navigable_indices.is_empty() {
            return;
        }
        let same = match self.scroll_dir {
            Some(d) => d == dir,
            None => false,
        };
        if !same {
            self.scroll_dir = Some(dir);
            self.scroll_hold_start_ms = Some(now_ms);
        }
    }

    /// Ends any held scroll.
    pub fn stop_scroll(&mut self)
        requires
            old(self).nav_wf(),
        ensures
            final(self).nav_wf(),
            same_except_scroll(*old(self), *final(self)),
            final(self).spec_scroll_dir() is None,
            final(self).spec_scroll_hold() is None,
    {
        self.scroll_dir = None;
        self.scroll_hold_start_ms = None;
    }
}

/// Total line count of the first `b` navigable blocks.
pub open spec fn spec_lines_before(blocks: Seq<LayoutBlock>, nav: Seq<usize>, b: int) -> int
    decreases b,
{
    if b <= 0 {
        0
    } else {
        spec_lines_before(blocks, nav, b - 1) + blocks[nav[b - 1] as int].lines@.len()
    }
}

/// With at least one line per navigable block, later prefixes hold at
/// least one line per extra block.
proof fn lemma_lines_before_mono(blocks: Seq<LayoutBlock>, nav: Seq<usize>, b1: int, b2: int)
    requires
        0 <= b1 <= b2 <= nav.len(),
        forall|k: int| 0 <= k < nav.len()
            ==> (#[trigger] nav[k]) < blocks.len()
                && blocks[nav[k] as int].lines@.len() >= 1,
    ensures
        spec_lines_before(blocks, nav, b1) + (b2 - b1) <= spec_lines_before(blocks, nav, b2),
    decreases b2 - b1,
{
    if b1 < b2 {
        lemma_lines_before_mono(blocks, nav, b1, b2 - 1);
    }
}

impl RailNav {
    /// Everything but the cursor agrees between the two navigators.
    pub open spec fn same_except_cursor(a: RailNav, b: RailNav) -> bool {
        a.analysis == b.analysis
            && a.navigable_indices@ == b.navigable_indices@
            && a.active == b.active
            && a.snap == b.snap
            && a.scroll_dir == b.scroll_dir
            && a.scroll_hold_start_ms == b.scroll_hold_start_ms
    }

    /// Cursor and outcome after `next_line`.
    pub open spec fn spec_next_cursor(self) -> (int, int, NavResult) {
        if !self.active || self.navigable_indices@.len() == 0 {
            (self.current_block as int, self.current_line as int, NavResult::Moved)
        } else if self.current_line + 1 < self.spec_line_count() {
            (self.current_block as int, self.current_line + 1, NavResult::Moved)
        } else if self.current_block + 1 < self.navigable_indices@.len() {
            (self.current_block + 1, 0int, NavResult::Moved)
        } else {
            (self.current_block as int, self.current_line as int, NavResult::PageBoundaryNext)
        }
    }

    /// Cursor and outcome after `prev_line`.
    pub open spec fn spec_prev_cursor(self) -> (int, int, NavResult) {
        if !self.active || self.navigable_indices@.len() == 0 {
            (self.current_block as int, self.current_line as int, NavResult::Moved)
        } else if self.current_line > 0 {
            (self.current_block as int, self.current_line - 1, NavResult::Moved)
        } else if self.current_block > 0 {
            let pb = self.current_block - 1;
            let pl = self.analysis->Some_0.blocks@[
                self.navigable_indices@[pb] as int].lines@.len() - 1;
            (pb, pl, NavResult::Moved)
        } else {
            (self.current_block as int, self.current_line as int, NavResult::PageBoundaryPrev)
        }
    }

    /// The cursor's position in a front-to-back count of all lines.
    pub open spec fn spec_flat_index(self) -> int {
        spec_lines_before(self.analysis->Some_0.blocks@, self.navigable_indices@,
            self.current_block as int) + self.current_line
    }

    /// Total number of lines over all navigable blocks.
    pub open spec fn spec_total_lines(self) -> int {
        spec_lines_before(self.analysis->Some_0.blocks@, self.navigable_indices@,
            self.navigable_indices@.len() as int)
    }

    /// Advances to the next line, or the next block's first line, or
    /// reports the end of the page without moving.  A no-op while inactive.
    pub fn next_line(&mut self) -> (r: NavResult)
        requires
            old(self).nav_wf(),
        ensures
            final(self).nav_wf(),
            RailNav::same_except_cursor(*old(self), *final(self)),
            final(self).current_block == old(self).spec_next_cursor().0,
            final(self).current_line == old(self).spec_next_cursor().1,
            r == old(self).spec_next_cursor().2,
    {
        if !self.active || self.navigable_indices.is_empty() {
            return NavResult::Moved;
        }
        proof {
            assert(self.spec_has_analysis());
            assert(self.current_block < self.navigable_indices@.len());
        }
        let line_count = self.current_navigable_block().lines.len();
        let cb = self.current_block;
        let n = self.navigable_indices.len();
        proof {
            assert(cb < n);
        }
        if self.current_line + 1 < line_count {
            self.current_line = self.current_line + 1;
            NavResult::Moved
        } else if cb + 1 < n {
            self.current_block = cb + 1;
            self.current_line = 0;
            NavResult::Moved
        } else {
            NavResult::PageBoundaryNext
        }
    }

    /// Moves to the previous line, or the previous block's last line, or
    /// reports the start of the page without moving.  A no-op while
    /// inactive.
    pub fn prev_line(&mut self) -> (r: NavResult)
        requires
            old(self).nav_wf(),
        ensures
            final(self).nav_wf(),
            RailNav::same_except_cursor(*old(self), *final(self)),
            final(self).current_block == old(self).spec_prev_cursor().0,
            final(self).current_line == old(self).spec_prev_cursor().1,
            r == old(self).spec_prev_cursor().2,
    {
        if !self.active || self.navigable_indices.is_empty() {
            return NavResult::Moved;
        }
        proof {
            assert(self.spec_has_analysis());
            assert(self.current_block < self.navigable_indices@.len());
        }
        if self.current_line > 0 {
            self.current_line = self.current_line - 1;
            NavResult::Moved
        } else if self.current_block > 0 {
            self.current_block = self.current_block - 1;
            let count = self.current_navigable_block().lines.len();
            self.current_line = count - 1;
            NavResult::Moved
        } else {
            NavResult::PageBoundaryPrev
        }
    }

    /// Puts the cursor on the last block's last line (used when a backward
    /// page change should land at the end of the new page).
    pub fn jump_to_end(&mut self)
        requires
            old(self).nav_wf(),
        ensures
            final(self).nav_wf(),
            RailNav::same_except_cursor(*old(self), *final(self)),
            !old(self).spec_has_analysis() ==> *final(self) == *old(self),
            old(self).spec_has_analysis() ==> {
                &&& final(self).current_block == old(self).navigable_indices@.len() - 1
                &&& final(self).current_line == final(self).spec_line_count() - 1
            },
    {
        if self.navigable_indices.is_empty() || self.analysis.is_none() {
            return;
        }
        self.current_block = self.navigable_indices.len() - 1;
        let count = self.current_navigable_block().lines.len();
        self.current_line = count - 1;
    }

    /// Moving forward and then back restores the cursor, whenever the
    /// forward move did not hit the page boundary.  `after` is the
    /// navigator as `next_line` leaves it.
    pub proof fn lemma_next_then_prev_restores(nav: RailNav, after: RailNav)
        requires
            nav.nav_wf(),
            nav.active,
            nav.spec_next_cursor().2 == NavResult::Moved,
            RailNav::same_except_cursor(nav, after),
            after.current_block == nav.spec_next_cursor().0,
            after.current_line == nav.spec_next_cursor().1,
        ensures
            after.spec_prev_cursor()
                == (nav.current_block as int, nav.current_line as int, NavResult::Moved),
    {
        assert(nav.spec_has_analysis());
        assert(nav.current_block < nav.navigable_indices@.len());
        assert(nav.current_line < nav.spec_line_count());
        if nav.current_line + 1 < nav.spec_line_count() {
            assert(after.current_line > 0);
        } else {
            assert(nav.current_block + 1 < nav.navigable_indices@.len());
            assert(after.current_line == 0 && after.current_block == nav.current_block + 1);
            assert(nav.current_line == nav.spec_line_count() - 1);
            assert(after.analysis == nav.analysis);
        }
    }

    /// `next_line` reports the page boundary exactly on the very last
    /// line, and each ordinary move advances the flat line position by
    /// one — so from the first line, exactly `total - 1` moves succeed and
    /// the next one reports the boundary.
    pub proof fn lemma_next_boundary_iff_last(nav: RailNav)
        requires
            nav.nav_wf(),
            nav.active,
        ensures
            (nav.spec_next_cursor().2 == NavResult::PageBoundaryNext)
                == (nav.spec_flat_index() == nav.spec_total_lines() - 1),
            0 <= nav.spec_flat_index() < nav.spec_total_lines(),
    {
        let blocks = nav.analysis->Some_0.blocks@;
        let nv = nav.navigable_indices@;
        let n = nv.len() as int;
        let cb = nav.current_block as int;
        assert forall|k: int| 0 <= k < nv.len()
            implies (#[trigger] nv[k]) < blocks.len()
                && blocks[nv[k] as int].lines@.len() >= 1 by {
            assert(spec_is_navigable(blocks[nv[k] as int].class_id));
        }
        lemma_lines_before_mono(blocks, nv, 0, cb);
        lemma_lines_before_mono(blocks, nv, cb + 1, n);
        assert(spec_lines_before(blocks, nv, cb + 1)
            == spec_lines_before(blocks, nv, cb) + blocks[nv[cb] as int].lines@.len());
        if nav.current_block + 1 == nv.len() && nav.current_line + 1 == nav.spec_line_count() {
            assert(nav.spec_flat_index() == nav.spec_total_lines() - 1);
        } else if nav.current_block + 1 == nv.len() {
            assert(nav.current_line < nav.spec_line_count() - 1);
            assert(nav.spec_flat_index() < nav.spec_total_lines() - 1);
        } else {
            assert(nav.spec_flat_index()
                <= spec_lines_before(blocks, nv, cb + 1) - 1);
            assert(spec_lines_before(blocks, nv, cb + 1) + (n - (cb + 1))
                <= nav.spec_total_lines());
            assert(nav.spec_flat_index() < nav.spec_total_lines() - 1);
        }
    }

    /// Each successful `next_line` advances the flat line position by
    /// exactly one.  `after` is the navigator as `next_line` leaves it.
    pub proof fn lemma_next_advances_flat(nav: RailNav, after: RailNav)
        requires
            nav.nav_wf(),
            nav.active,
            nav.spec_next_cursor().2 == NavResult::Moved,
            RailNav::same_except_cursor(nav, after),
            after.current_block == nav.spec_next_cursor().0,
            after.current_line == nav.spec_next_cursor().1,
        ensures
            after.spec_flat_index() == nav.spec_flat_index() + 1,
    {
        let blocks = nav.analysis->Some_0.blocks@;
        let nv = nav.navigable_indices@;
        let cb = nav.current_block as int;
        assert(nav.spec_has_analysis());
        assert(after.analysis == nav.analysis);
        if nav.current_line + 1 < nav.spec_line_count() {
            assert(after.spec_flat_index() == nav.spec_flat_index() + 1);
        } else {
            assert(after.current_block == nav.current_block + 1 && after.current_line == 0);
            assert(spec_lines_before(blocks, nv, cb + 1)
                == spec_lines_before(blocks, nv, cb) + blocks[nv[cb] as int].lines@.len());
            assert(after.spec_flat_index() == spec_lines_before(blocks, nv, cb + 1));
            assert(nav.current_line == blocks[nv[cb] as int].lines@.len() - 1);
        }
    }
}

/// Squared distance (scaled by `4 * zoom * zoom`) between a block's
/// centroid in page coordinates and the viewport center that the camera
/// offset and zoom describe.
pub open spec fn spec_dist2(b: BBox, camera_x: int, camera_y: int, zoom: int, ww: int, wh: int) -> int {
    let dx = (2 * b.x + b.w) * zoom - (ww - 2 * camera_x);
    let dy = (2 * b.y + b.h) * zoom - (wh - 2 * camera_y);
    dx * dx + dy * dy
}

/// Halving toward zero (the exact half whenever the value is even).
pub open spec fn spec_half_toward_zero(v: int) -> int {
    if v >= 0 { v / 2 } else { -((-v) / 2) }
}

/// Camera x that clamps `cand` to the margined block: a block narrower
/// than the viewport is centered; otherwise the camera stays between the
/// positions that put the block's margined edges flush with the viewport
/// edges.  The margin is one twentieth of the block width on each side.
pub open spec fn spec_clamp_x_for(b: BBox, cand: int, zoom: int, ww: int) -> int {
    let margin = b.w as int / 20;
    let left = b.x - margin;
    let right = b.x + b.w + margin;
    if (right - left) * zoom <= ww {
        spec_half_toward_zero(ww - (left + right) * zoom)
    } else {
        let min_x = ww - right * zoom;
        let max_x = -left * zoom;
        if cand < min_x { min_x } else if cand > max_x { max_x } else { cand }
    }
}

/// Camera x that aligns the block's left edge with a one-twentieth
/// viewport margin.
pub open spec fn spec_target_x(b: BBox, zoom: int, ww: int) -> int {
    ww / 20 - b.x * zoom
}

/// Camera y that centers the line vertically in the viewport.
pub open spec fn spec_target_y(line: LineInfo, zoom: int, wh: int) -> int {
    spec_half_toward_zero(wh - 2 * line.y * zoom)
}

/// Eased camera position: cubic ease-out from `start` toward `target`,
/// `1 - (1 - t)^3` of the way there after `elapsed` of `dur` milliseconds.
pub open spec fn spec_eased_camera(start: int, target: int, elapsed: int, dur: int) -> int {
    let e = if elapsed <= dur { elapsed } else { dur };
    let rem = dur - e;
    let num = dur * dur * dur - rem * rem * rem;
    let den = dur * dur * dur;
    if target >= start {
        start + (target - start) * num / den
    } else {
        start - (start - target) * num / den
    }
}

/// Camera movement of one held-scroll frame: the speed ramps from the
/// start speed to the maximum with a quadratic ease-in over the ramp time,
/// and is integrated over `dt_ms` at the current zoom.
pub open spec fn spec_scroll_step(hold_ms: int, dt_ms: int, zoom: int) -> int {
    let h = if hold_ms <= SCROLL_RAMP_MS { hold_ms } else { SCROLL_RAMP_MS as int };
    (SCROLL_SPEED_START * 2_250_000 + (SCROLL_SPEED_MAX - SCROLL_SPEED_START) * (h * h))
        * dt_ms * zoom / 2_250_000_000
}

/// The clamped camera either centers a narrow margined block inside the
/// viewport, or pins a wide one so that it covers the whole viewport: the
/// block is never scrolled out of view.
pub proof fn lemma_clamp_keeps_block_in_view(b: BBox, cand: int, zoom: int, ww: int)
    requires
        b.wf(),
        0 < zoom <= ZOOM_LIMIT,
        0 <= ww <= WINDOW_LIMIT,
    ensures
        ({
            let margin = b.w as int / 20;
            let left = b.x - margin;
            let right = b.x + b.w + margin;
            let r = spec_clamp_x_for(b, cand, zoom, ww);
            &&& ((right - left) * zoom <= ww
                ==> left * zoom + r >= 0 && right * zoom + r <= ww)
            &&& ((right - left) * zoom > ww
                ==> left * zoom + r <= 0 && right * zoom + r >= ww)
        }),
{
    let margin = b.w as int / 20;
    let left = b.x - margin;
    let right = b.x + b.w + margin;
    let r = spec_clamp_x_for(b, cand, zoom, ww);
    assert((left + right) * zoom == left * zoom + right * zoom) by (nonlinear_arith);
    assert((right - left) * zoom == right * zoom - left * zoom) by (nonlinear_arith);
    assert((-left) * zoom == -(left * zoom)) by (nonlinear_arith);
    if (right - left) * zoom <= ww {
        let d = ww - (left + right) * zoom;
        if d >= 0 {
            vstd::arithmetic::div_mod::lemma_fundamental_div_mod(d, 2);
            vstd::arithmetic::div_mod::lemma_mod_division_less_than_divisor(d, 2);
            assert(2 * r == 2 * (d / 2));
            assert(d - 1 <= 2 * (d / 2) <= d);
        } else {
            let e = -d;
            vstd::arithmetic::div_mod::lemma_fundamental_div_mod(e, 2);
            vstd::arithmetic::div_mod::lemma_mod_division_less_than_divisor(e, 2);
            assert(r == -(e / 2));
            assert(d <= 2 * r <= d + 1);
        }
        assert(2 * (left * zoom) + 2 * r >= 2 * (left * zoom) + d - 1);
        assert(2 * (left * zoom) + d == ww - (right - left) * zoom);
        assert(2 * (left * zoom) + 2 * r >= -1);
        assert(left * zoom + r >= 0);
        assert(2 * (right * zoom) + 2 * r <= 2 * (right * zoom) + d + 1);
        assert(2 * (right * zoom) + d == ww + (right - left) * zoom);
        assert((right - left) * zoom >= 0) by (nonlinear_arith)
            requires
                right - left >= 0,
                zoom > 0,
        ;
        assert(2 * (right * zoom) + 2 * r <= 2 * ww + 1);
        assert(right * zoom + r <= ww);
    } else {
        let min_x = ww - right * zoom;
        let max_x = -left * zoom;
        assert(max_x - min_x == (right - left) * zoom - ww);
        assert(min_x <= r <= max_x);
    }
}

impl RailNav {
    /// Squared scaled distance from a block's centroid to the viewport
    /// center, in `i128` to keep the squares exact.
    fn dist2(b: &BBox, camera_x: i64, camera_y: i64, zoom: i64, ww: i64, wh: i64) -> (r: i128)
        requires
            b.wf(),
            -CAMERA_LIMIT <= camera_x <= CAMERA_LIMIT,
            -CAMERA_LIMIT <= camera_y <= CAMERA_LIMIT,
            0 < zoom <= ZOOM_LIMIT,
            0 <= ww <= WINDOW_LIMIT,
            0 <= wh <= WINDOW_LIMIT,
        ensures
            r == spec_dist2(*b, camera_x as int, camera_y as int, zoom as int, ww as int, wh as int),
    {
        proof {
            assert(0 <= (2 * b.x + b.w) * (zoom as int) <= 60_000_000_000int) by (nonlinear_arith)
                requires
                    0 <= 2 * b.x + b.w <= 3_000_000,
                    0 < zoom as int <= 20_000,
            ;
            assert(0 <= (2 * b.y + b.h) * (zoom as int) <= 60_000_000_000int) by (nonlinear_arith)
                requires
                    0 <= 2 * b.y + b.h <= 3_000_000,
                    0 < zoom as int <= 20_000,
            ;
        }
        let dx: i128 = (2 * b.x + b.w) as i128 * zoom as i128 - (ww as i128 - 2 * camera_x as i128);
        let dy: i128 = (2 * b.y + b.h) as i128 * zoom as i128 - (wh as i128 - 2 * camera_y as i128);
        proof {
            let lim: int = 300_000_000_000;
            assert(-lim <= dx <= lim && -lim <= dy <= lim);
            assert(0 <= dx * dx <= lim * lim && 0 <= dy * dy <= lim * lim) by (nonlinear_arith)
                requires
                    -lim <= dx <= lim,
                    -lim <= dy <= lim,
            ;
        }
        dx * dx + dy * dy
    }

    /// `cb` is the first navigable block whose centroid is nearest to the
    /// viewport center.
    pub open spec fn spec_is_first_nearest(self, cb: int, camera_x: int, camera_y: int, zoom: int, ww: int, wh: int) -> bool {
        let a = self.analysis->Some_0;
        let nv = self.navigable_indices@;
        &&& 0 <= cb < nv.len()
        &&& forall|k: int| 0 <= k < nv.len()
            ==> spec_dist2(a.blocks@[nv[cb] as int].bbox, camera_x, camera_y, zoom, ww, wh)
                <= spec_dist2(a.blocks@[(#[trigger] nv[k]) as int].bbox, camera_x, camera_y, zoom, ww, wh)
        &&& forall|k: int| 0 <= k < cb
            ==> spec_dist2(a.blocks@[(#[trigger] nv[k]) as int].bbox, camera_x, camera_y, zoom, ww, wh)
                > spec_dist2(a.blocks@[nv[cb] as int].bbox, camera_x, camera_y, zoom, ww, wh)
    }

    /// Puts the cursor on the first line of the navigable block nearest
    /// to the current viewport center.
    fn find_nearest_block(&mut self, camera_x: i64, camera_y: i64, zoom: i64, ww: i64, wh: i64)
        requires
            old(self).nav_wf(),
            old(self).spec_has_analysis(),
            -CAMERA_LIMIT <= camera_x <= CAMERA_LIMIT,
            -CAMERA_LIMIT <= camera_y <= CAMERA_LIMIT,
            0 < zoom <= ZOOM_LIMIT,
            0 <= ww <= WINDOW_LIMIT,
            0 <= wh <= WINDOW_LIMIT,
        ensures
            final(self).nav_wf(),
            RailNav::same_except_cursor(*old(self), *final(self)),
            final(self).current_line == 0,
            old(self).spec_is_first_nearest(final(self).current_block as int,
                camera_x as int, camera_y as int, zoom as int, ww as int, wh as int),
    {
        let ghost me = *self;
        let n = self.navigable_indices.len();
        let a = self.analysis.as_ref().unwrap();
        let mut best: usize = 0;
        let first = self.navigable_indices[0];
        let mut best_dist = RailNav::dist2(&a.blocks[first].bbox, camera_x, camera_y, zoom, ww, wh);
        let mut k: usize = 1;
        while k < n
            invariant
                me.nav_wf(),
                me.spec_has_analysis(),
                a == me.analysis->Some_0,
                n == me.navigable_indices@.len(),
                -CAMERA_LIMIT <= camera_x <= CAMERA_LIMIT,
                -CAMERA_LIMIT <= camera_y <= CAMERA_LIMIT,
                0 < zoom <= ZOOM_LIMIT,
                0 <= ww <= WINDOW_LIMIT,
                0 <= wh <= WINDOW_LIMIT,
                best < k <= n,
                self.navigable_indices@ == me.navigable_indices@,
                self.analysis == me.analysis,
                best_dist == spec_dist2(
                    a.blocks@[me.navigable_indices@[best as int] as int].bbox,
                    camera_x as int, camera_y as int, zoom as int, ww as int, wh as int),
                forall|t: int| 0 <= t < k
                    ==> best_dist <= spec_dist2(
                        a.blocks@[(#[trigger] me.navigable_indices@[t]) as int].bbox,
                        camera_x as int, camera_y as int, zoom as int, ww as int, wh as int),
                forall|t: int| 0 <= t < best
                    ==> spec_dist2(
                        a.blocks@[(#[trigger] me.navigable_indices@[t]) as int].bbox,
                        camera_x as int, camera_y as int, zoom as int, ww as int, wh as int) > best_dist,
            decreases n - k,
        {
            let bi = self.navigable_indices[k];
            let d = RailNav::dist2(&a.blocks[bi].bbox, camera_x, camera_y, zoom, ww, wh);
            if d < best_dist {
                best = k;
                best_dist = d;
            }
            k = k + 1;
        }
        self.current_block = best;
        self.current_line = 0;
    }

    /// Recomputes rail activation from the zoom level: activation above
    /// the threshold selects the navigable block nearest the viewport
    /// center; deactivation cancels the snap animation and the held
    /// scroll direction.
    pub fn update_zoom(&mut self, zoom: i64, camera_x: i64, camera_y: i64, ww: i64, wh: i64)
        requires
            old(self).nav_wf(),
            -CAMERA_LIMIT <= camera_x <= CAMERA_LIMIT,
            -CAMERA_LIMIT <= camera_y <= CAMERA_LIMIT,
            0 < zoom <= ZOOM_LIMIT,
            0 <= ww <= WINDOW_LIMIT,
            0 <= wh <= WINDOW_LIMIT,
        ensures
            final(self).nav_wf(),
            final(self).analysis == old(self).analysis,
            final(self).navigable_indices@ == old(self).navigable_indices@,
            final(self).active
                == (zoom >= RAIL_ZOOM_THRESHOLD_MILLI && old(self).spec_has_analysis()),
            final(self).active == old(self).active ==> *final(self) == *old(self),
            !old(self).active && final(self).active ==> {
                &&& final(self).current_line == 0
                &&& old(self).spec_is_first_nearest(final(self).current_block as int,
                    camera_x as int, camera_y as int, zoom as int, ww as int, wh as int)
                &&& final(self).snap == old(self).snap
                &&& final(self).scroll_dir == old(self).scroll_dir
                &&& final(self).scroll_hold_start_ms == old(self).scroll_hold_start_ms
            },
            old(self).active && !final(self).active ==> {
                &&& final(self).current_block == old(self).current_block
                &&& final(self).current_line == old(self).current_line
                &&& final(self).snap is None
                &&& final(self).scroll_dir is None
                &&& final(self).scroll_hold_start_ms == old(self).scroll_hold_start_ms
            },
    {
        let should_be_active = zoom >= RAIL_ZOOM_THRESHOLD_MILLI && self.has_analysis();
        if should_be_active && !self.active {
            self.active = true;
            self.find_nearest_block(camera_x, camera_y, zoom, ww, wh);
        } else if !should_be_active && self.active {
            self.active = false;
            self.snap = None;
            self.scroll_dir = None;
        }
    }
}

impl RailNav {
    /// Clamps a candidate camera x to the current block (see
    /// [`spec_clamp_x_for`]); with nothing navigable the candidate passes
    /// through unchanged.
    pub fn clamp_x(&self, camera_x: i64, zoom: i64, window_width: i64) -> (r: i64)
        requires
            self.nav_wf(),
            -2 * CAMERA_LIMIT <= camera_x <= 2 * CAMERA_LIMIT,
            0 < zoom <= ZOOM_LIMIT,
            0 <= window_width <= WINDOW_LIMIT,
        ensures
            !self.spec_has_analysis() ==> r == camera_x,
            self.spec_has_analysis() && self.current_block < self.navigable_indices@.len()
                ==> r == spec_clamp_x_for(self.spec_current_block().bbox,
                    camera_x as int, zoom as int, window_width as int)
                    && -CAMERA_LIMIT <= r <= CAMERA_LIMIT,
    {
        if self.navigable_indices.is_empty() || self.analysis.is_none() {
            return camera_x;
        }
        let b = self.current_navigable_block().bbox;
        let margin = b.w / 20;
        let left = b.x - margin;
        let right = b.x + b.w + margin;
        proof {
            assert(0 <= margin <= 50_000);
            assert(-50_000 <= left && right <= 1_050_000 && left <= right);
            assert(0 <= (right - left) * (zoom as int) <= 22_000_000_000int) by (nonlinear_arith)
                requires
                    0 <= right - left <= 1_100_000,
                    0 < zoom as int <= 20_000,
            ;
            assert(-22_000_000_000int <= (left + right) * (zoom as int) <= 42_000_000_000int) by (nonlinear_arith)
                requires
                    -50_000 <= left + right <= 2_100_000,
                    0 < zoom as int <= 20_000,
            ;
            assert(-1_000_000_000int <= left * (zoom as int) <= 21_000_000_000int) by (nonlinear_arith)
                requires
                    -50_000 <= left <= 1_050_000,
                    0 < zoom as int <= 20_000,
            ;
            assert(0 <= right * (zoom as int) <= 21_000_000_000int) by (nonlinear_arith)
                requires
                    0 <= right <= 1_050_000,
                    0 < zoom as int <= 20_000,
            ;
        }
        let scaled = (right - left) * zoom;
        if scaled <= window_width {
            let d = window_width - (left + right) * zoom;
            if d >= 0 { d / 2 } else { -((-d) / 2) }
        } else {
            let min_x = window_width - right * zoom;
            proof {
                assert((-left) * (zoom as int) == -(left * (zoom as int))) by (nonlinear_arith);
            }
            let max_x = -left * zoom;
            if camera_x < min_x {
                min_x
            } else if camera_x > max_x {
                max_x
            } else {
                camera_x
            }
        }
    }

    /// Camera offset that frames the start of the current line: the
    /// block's left edge at a one-twentieth viewport margin, the line
    /// centered vertically.
    pub fn compute_target_camera(&self, zoom: i64, ww: i64, wh: i64) -> (r: (i64, i64))
        requires
            self.nav_wf(),
            self.spec_has_analysis(),
            0 < zoom <= ZOOM_LIMIT,
            0 <= ww <= WINDOW_LIMIT,
            0 <= wh <= WINDOW_LIMIT,
        ensures
            r.0 == spec_target_x(self.spec_current_block().bbox, zoom as int, ww as int),
            r.1 == spec_target_y(
                self.spec_current_block().lines@[self.current_line as int],
                zoom as int, wh as int),
            -CAMERA_LIMIT <= r.0 <= CAMERA_LIMIT,
            -CAMERA_LIMIT <= r.1 <= CAMERA_LIMIT,
    {
        let block = self.current_navigable_block();
        let bx = block.bbox.x;
        let line = self.current_line_info();
        let ly = line.y;
        proof {
            assert(0 <= bx * (zoom as int) <= 20_000_000_000int) by (nonlinear_arith)
                requires
                    0 <= bx as int <= 1_000_000,
                    0 < zoom as int <= 20_000,
            ;
            assert(0 <= 2 * (ly as int) * (zoom as int) <= 80_000_000_000int) by (nonlinear_arith)
                requires
                    0 <= ly as int <= 2_000_000,
                    0 < zoom as int <= 20_000,
            ;
        }
        let target_x = ww / 20 - bx * zoom;
        let dy = wh - 2 * ly * zoom;
        let target_y = if dy >= 0 { dy / 2 } else { -((-dy) / 2) };
        (target_x, target_y)
    }

    /// Begins a snap animation from the current camera offset to the
    /// current line's start-of-line framing.  A no-op while inactive.
    pub fn start_snap_to_current(
        &mut self,
        camera_x: i64,
        camera_y: i64,
        zoom: i64,
        ww: i64,
        wh: i64,
        now_ms: u64,
    )
        requires
            old(self).nav_wf(),
            -CAMERA_LIMIT <= camera_x <= CAMERA_LIMIT,
            -CAMERA_LIMIT <= camera_y <= CAMERA_LIMIT,
            0 < zoom <= ZOOM_LIMIT,
            0 <= ww <= WINDOW_LIMIT,
            0 <= wh <= WINDOW_LIMIT,
        ensures
            final(self).nav_wf(),
            !(old(self).active && old(self).spec_has_analysis())
                ==> *final(self) == *old(self),
            old(self).active && old(self).spec_has_analysis() ==> {
                &&& RailNav::same_except_snap(*old(self), *final(self))
                &&& final(self).snap == Option::Some(SnapAnimation {
                    start_x: camera_x,
                    start_y: camera_y,
                    target_x: spec_target_x(old(self).spec_current_block().bbox,
                        zoom as int, ww as int) as i64,
                    target_y: spec_target_y(
                        old(self).spec_current_block().lines@[old(self).current_line as int],
                        zoom as int, wh as int) as i64,
                    start_ms: now_ms,
                    duration_ms: SNAP_DURATION_MS,
                })
            },
    {
        if !self.active || self.navigable_indices.is_empty() {
            return;
        }
        let (target_x, target_y) = self.compute_target_camera(zoom, ww, wh);
        self.snap = Some(SnapAnimation {
            start_x: camera_x,
            start_y: camera_y,
            target_x,
            target_y,
            start_ms: now_ms,
            duration_ms: SNAP_DURATION_MS,
        });
    }

    /// Everything but the snap animation agrees between the two
    /// navigators.
    pub open spec fn same_except_snap(a: RailNav, b: RailNav) -> bool {
        a.analysis == b.analysis
            && a.navigable_indices@ == b.navigable_indices@
            && a.current_block == b.current_block
            && a.current_line == b.current_line
            && a.active == b.active
            && a.scroll_dir == b.scroll_dir
            && a.scroll_hold_start_ms == b.scroll_hold_start_ms
    }
}

/// Eased camera position of one snap frame (see [`spec_eased_camera`]).
fn eased_camera(start: i64, target: i64, elapsed_ms: u64, dur_ms: u64) -> (r: i64)
    requires
        -CAMERA_LIMIT <= start <= CAMERA_LIMIT,
        -CAMERA_LIMIT <= target <= CAMERA_LIMIT,
        0 < dur_ms <= 10_000,
    ensures
        r == spec_eased_camera(start as int, target as int, elapsed_ms as int, dur_ms as int),
        elapsed_ms >= dur_ms ==> r == target,
        start <= target ==> start <= r <= target,
        target <= start ==> target <= r <= start,
{
    let e: u64 = if elapsed_ms <= dur_ms { elapsed_ms } else { dur_ms };
    let rem: u64 = dur_ms - e;
    let d: i128 = dur_ms as i128;
    let rm: i128 = rem as i128;
    proof {
        assert(0 < d * d <= 100_000_000int && 0 < d * d * d <= 1_000_000_000_000int) by (nonlinear_arith)
            requires
                0 < d <= 10_000,
        ;
        assert(0 <= rm * rm <= d * d && 0 <= rm * rm * rm <= d * d * d) by (nonlinear_arith)
            requires
                0 <= rm <= d,
        ;
    }
    let den: i128 = d * d * d;
    let num: i128 = den - rm * rm * rm;
    let dist: i128 = if target >= start { (target - start) as i128 } else { (start - target) as i128 };
    proof {
        assert(0 <= dist * num <= dist * den) by (nonlinear_arith)
            requires
                0 <= dist,
                0 <= num <= den,
        ;
        assert(dist * den <= 200_000_000_000int * 1_000_000_000_000int) by (nonlinear_arith)
            requires
                0 <= dist <= 200_000_000_000int,
                0 <= den <= 1_000_000_000_000int,
        ;
        vstd::arithmetic::div_mod::lemma_div_pos_is_pos(dist as int * num as int, den as int);
        vstd::arithmetic::div_mod::lemma_div_is_ordered(dist as int * num as int, dist as int * den as int, den as int);
        vstd::arithmetic::div_mod::lemma_div_multiples_vanish(dist as int, den as int);
        assert(dist * den == den * dist) by (nonlinear_arith);
    }
    let mag128: i128 = dist * num / den;
    proof {
        assert(0 <= mag128 <= dist);
        if elapsed_ms >= dur_ms {
            assert(rm == 0);
            assert(num == den);
        }
    }
    let mag: i64 = mag128 as i64;
    if target >= start {
        start + mag
    } else {
        start - mag
    }
}

/// Camera movement of one held-scroll frame (see [`spec_scroll_step`]).
fn scroll_step(hold_ms: u64, dt_ms: u64, zoom: i64) -> (r: i64)
    requires
        dt_ms <= 10_000,
        0 < zoom <= ZOOM_LIMIT,
    ensures
        r == spec_scroll_step(hold_ms as int, dt_ms as int, zoom as int),
        0 <= r <= 100_000_000,
{
    let h: i64 = if hold_ms <= 1500 { hold_ms as i64 } else { 1500 };
    proof {
        assert(0 <= h * h <= 2_250_000) by (nonlinear_arith)
            requires
                0 <= h <= 1500,
        ;
    }
    let speed_num: i64 = SCROLL_SPEED_START * 2_250_000
        + (SCROLL_SPEED_MAX - SCROLL_SPEED_START) * (h * h);
    proof {
        assert(0 <= speed_num <= 900_000_000);
        assert(0 <= speed_num * (dt_ms as int) <= 9_000_000_000_000int) by (nonlinear_arith)
            requires
                0 <= speed_num <= 900_000_000,
                0 <= dt_ms as int <= 10_000,
        ;
    }
    let t1: i64 = speed_num * (dt_ms as i64);
    proof {
        assert(0 <= t1 * (zoom as int) <= 180_000_000_000_000_000int) by (nonlinear_arith)
            requires
                0 <= t1 as int <= 9_000_000_000_000int,
                0 < zoom as int <= 20_000,
        ;
        vstd::arithmetic::div_mod::lemma_div_pos_is_pos(t1 as int * zoom as int, 2_250_000_000int);
        vstd::arithmetic::div_mod::lemma_div_is_ordered(t1 as int * zoom as int,
            180_000_000_000_000_000int, 2_250_000_000int);
    }
    let t2: i64 = t1 * zoom;
    t2 / 2_250_000_000
}

impl RailNav {
    /// Advances the running snap animation and the held scroll by one
    /// frame, updating the camera offsets in place.  Returns whether
    /// anything is still moving, so the host can skip redraws.
    pub fn tick(
        &mut self,
        camera_x: &mut i64,
        camera_y: &mut i64,
        now_ms: u64,
        dt_ms: u64,
        zoom: i64,
        window_width: i64,
    ) -> (animating: bool)
        requires
            old(self).nav_wf(),
            match old(self).snap {
                Option::Some(s) => now_ms >= s.start_ms,
                Option::None => true,
            },
            match old(self).scroll_hold_start_ms {
                Option::Some(h) => now_ms >= h,
                Option::None => true,
            },
            dt_ms <= 10_000,
            -CAMERA_LIMIT <= *old(camera_x) <= CAMERA_LIMIT,
            -CAMERA_LIMIT <= *old(camera_y) <= CAMERA_LIMIT,
            0 < zoom <= ZOOM_LIMIT,
            0 <= window_width <= WINDOW_LIMIT,
        ensures
            final(self).nav_wf(),
            ({
                let me = *old(self);
                let sx = match me.snap {
                    Option::Some(s) => spec_eased_camera(s.start_x as int, s.target_x as int,
                        now_ms - s.start_ms, s.duration_ms as int),
                    Option::None => *old(camera_x) as int,
                };
                let sy = match me.snap {
                    Option::Some(s) => spec_eased_camera(s.start_y as int, s.target_y as int,
                        now_ms - s.start_ms, s.duration_ms as int),
                    Option::None => *old(camera_y) as int,
                };
                let snap_live = match me.snap {
                    Option::Some(s) => now_ms - s.start_ms < s.duration_ms,
                    Option::None => false,
                };
                let scrolling = me.scroll_dir is Some && me.scroll_hold_start_ms is Some;
                &&& *final(camera_y) == sy
                &&& final(self).snap == (if snap_live { me.snap } else { Option::<SnapAnimation>::None })
                &&& RailNav::same_except_snap(me, *final(self))
                &&& animating == (snap_live || scrolling)
                &&& (!scrolling ==> *final(camera_x) == sx)
                &&& (scrolling ==> {
                    let hold = me.scroll_hold_start_ms->Some_0;
                    let delta = spec_scroll_step(now_ms - hold, dt_ms as int, zoom as int);
                    let moved = if me.scroll_dir == Option::Some(ScrollDir::Forward) {
                        sx - delta
                    } else {
                        sx + delta
                    };
                    *final(camera_x) == spec_clamp_x_for(me.spec_current_block().bbox,
                        moved, zoom as int, window_width as int)
                })
            }),
            -CAMERA_LIMIT <= *final(camera_x) <= CAMERA_LIMIT,
            -CAMERA_LIMIT <= *final(camera_y) <= CAMERA_LIMIT,
    {
        let mut animating = false;

        match self.snap {
            Some(s) => {
                let elapsed = now_ms - s.start_ms;
                *camera_x = eased_camera(s.start_x, s.target_x, elapsed, s.duration_ms);
                *camera_y = eased_camera(s.start_y, s.target_y, elapsed, s.duration_ms);
                if elapsed >= s.duration_ms {
                    self.snap = None;
                } else {
                    animating = true;
                }
            },
            None => {},
        }

        let scrolling = self.scroll_dir.is_some() && self.scroll_hold_start_ms.is_some();
        if scrolling {
            proof {
                assert(self.active);
                assert(self.spec_has_analysis());
            }
            let dir = self.scroll_dir.unwrap();
            let hold = self.scroll_hold_start_ms.unwrap();
            let delta = scroll_step(now_ms - hold, dt_ms, zoom);
            let moved = match dir {
                ScrollDir::Forward => *camera_x - delta,
                ScrollDir::Backward => *camera_x + delta,
            };
            *camera_x = self.clamp_x(moved, zoom, window_width);
            animating = true;
        }
        animating
    }
}

} // verus!
