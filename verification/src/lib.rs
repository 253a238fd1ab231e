//! Layout-detection post-processing and rail-mode navigation.
//!
//! The crate turns raw machine-learning layout detections on a document page
//! into an ordered, navigable block structure (confidence filtering,
//! non-maximum suppression, reading-order assignment, per-block text-line
//! segmentation from pixel data), and drives a camera-animation state machine
//! that moves a reader line-by-line through a zoomed page.
//!
//! All geometry is carried in exact integer units: page coordinates in
//! page points, confidences in thousandths, zoom factors in thousandths,
//! times in milliseconds.  Every threshold of the pipeline is a rational
//! number, so each comparison is performed exactly by cross-multiplication.

pub mod analyze;
pub mod blocks;
pub mod cleanup;
pub mod colour_effect;
pub mod filter;
pub mod fonts;
pub mod geom;
pub mod images;
pub mod lines;
pub mod nms;
pub mod order;
pub mod rail;
pub mod tab;
pub mod worker;

use vstd::prelude::*;

verus! {

/// Upper bound on page and bitmap coordinates, in points or pixels.
/// Keeps all intermediate products of the pipeline inside `i64`.
pub const COORD_LIMIT: i64 = 1_000_000;

} // verus!
