//! Layout blocks, detected text lines, and the per-page analysis product.

use vstd::prelude::*;
use crate::geom::BBox;

verus! {

/// Number of known layout classes emitted by the detector.
pub const LAYOUT_CLASS_COUNT: usize = 23;

/// True for the classes that are navigable in rail mode (readable text
/// regions): document titles, paragraph titles, body text, abstracts,
/// references, footnotes, algorithm listings and aside text.
pub open spec fn spec_is_navigable(class_id: usize) -> bool {
    class_id == 0 || class_id == 1 || class_id == 2 || class_id == 4
        || class_id == 6 || class_id == 7 || class_id == 11 || class_id == 22
}

/// Decides whether a layout class is navigable in rail mode.
pub fn is_navigable(class_id: usize) -> (r: bool)
    ensures
        r == spec_is_navigable(class_id),
{
    class_id == 0 || class_id == 1 || class_id == 2 || class_id == 4
        || class_id == 6 || class_id == 7 || class_id == 11 || class_id == 22
}

/// One detected text line inside a block: vertical center `y` and `height`,
/// both in page points.
#[derive(Clone, Copy, Debug)]
pub struct LineInfo {
    pub y: i64,
    pub height: i64,
}

impl LineInfo {
    pub open spec fn wf(self) -> bool {
        0 <= self.y <= 2 * crate::COORD_LIMIT && 0 <= self.height <= crate::COORD_LIMIT
    }
}

/// One layout region of a page: its box in page points, detector class,
/// confidence in thousandths, reading-order rank, and detected text lines
/// (populated only for navigable blocks).
#[derive(Clone, Debug)]
pub struct LayoutBlock {
    pub bbox: BBox,
    pub class_id: usize,
    pub confidence: i64,
    pub order: usize,
    pub lines: Vec<LineInfo>,
}

impl LayoutBlock {
    pub open spec fn wf(self) -> bool {
        &&& self.bbox.wf()
        &&& 0 <= self.confidence <= 1000
        &&& forall|i: int| 0 <= i < self.lines@.len() ==> (#[trigger] self.lines@[i]).wf()
    }
}

/// The ordered, line-annotated block list produced for one page.
/// `page_width` and `page_height` are in page points.
#[derive(Clone, Debug)]
pub struct PageAnalysis {
    pub blocks: Vec<LayoutBlock>,
    pub page_width: i64,
    pub page_height: i64,
}

impl PageAnalysis {
    /// Every block is well formed and every navigable block carries at
    /// least one detected line.
    pub open spec fn wf(self) -> bool {
        &&& 0 < self.page_width <= crate::COORD_LIMIT
        &&& 0 < self.page_height <= crate::COORD_LIMIT
        &&& forall|i: int|
            0 <= i < self.blocks@.len() ==> (#[trigger] self.blocks@[i]).wf()
        &&& forall|i: int|
            0 <= i < self.blocks@.len() && spec_is_navigable(self.blocks@[i].class_id)
                ==> (#[trigger] self.blocks@[i]).lines@.len() >= 1
    }
}

/// One raw detection row, already in exact integer units: `class_id` as the
/// detector emitted it (possibly out of table range), `confidence` in
/// thousandths, and corner coordinates in source-bitmap pixels (possibly
/// negative or out of bitmap bounds; the filter clamps and rejects).
#[derive(Clone, Copy, Debug)]
pub struct RawDetection {
    pub class_id: usize,
    pub confidence: i64,
    pub xmin: i64,
    pub ymin: i64,
    pub xmax: i64,
    pub ymax: i64,
}

impl RawDetection {
    /// Raw coordinates are bounded in magnitude so that clamping and
    /// scaling arithmetic stays inside `i64`.
    pub open spec fn wf(self) -> bool {
        &&& 0 <= self.confidence <= 1000
        &&& -crate::COORD_LIMIT <= self.xmin <= crate::COORD_LIMIT
        &&& -crate::COORD_LIMIT <= self.ymin <= crate::COORD_LIMIT
        &&& -crate::COORD_LIMIT <= self.xmax <= crate::COORD_LIMIT
        &&& -crate::COORD_LIMIT <= self.ymax <= crate::COORD_LIMIT
    }
}

} // verus!
