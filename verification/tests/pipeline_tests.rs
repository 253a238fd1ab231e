use railreader2::analyze::{analyze_detections, fallback_analysis};
use railreader2::blocks::{is_navigable, LayoutBlock, RawDetection};
use railreader2::filter::filter_detections;
use railreader2::geom::{iou_exceeds, BBox};
use railreader2::lines::{detect_lines_for_blocks, segment_region};
use railreader2::nms::nms;
use railreader2::order::assign_reading_order;

fn block(x: i64, y: i64, w: i64, h: i64, confidence: i64) -> LayoutBlock {
    LayoutBlock {
        bbox: BBox { x, y, w, h },
        class_id: 2,
        confidence,
        order: 0,
        lines: Vec::new(),
    }
}

#[test]
fn iou_exceeds_is_exact_at_the_threshold() {
    // overlap is exactly half of the union: not an excess
    let a = BBox { x: 0, y: 0, w: 100, h: 100 };
    let b = BBox { x: 0, y: 0, w: 100, h: 50 };
    assert!(!iou_exceeds(&a, &b, 1, 2));
    // overlap of three fifths of the union
    let c = BBox { x: 25, y: 0, w: 100, h: 100 };
    assert!(iou_exceeds(&a, &c, 1, 2));
    // disjoint boxes never exceed
    let d = BBox { x: 500, y: 500, w: 10, h: 10 };
    assert!(!iou_exceeds(&a, &d, 1, 2));
}

#[test]
fn nms_and_filter_keep_one_of_three_raw_detections() {
    // two strong detections with IoU 0.6, one below the confidence floor
    let rows = vec![
        RawDetection { class_id: 2, confidence: 900, xmin: 0, ymin: 0, xmax: 100, ymax: 100 },
        RawDetection { class_id: 2, confidence: 600, xmin: 25, ymin: 0, xmax: 125, ymax: 100 },
        RawDetection { class_id: 2, confidence: 300, xmin: 500, ymin: 500, xmax: 600, ymax: 600 },
    ];
    let filtered = filter_detections(&rows, 1000, 1000, 1000, 1000);
    assert_eq!(filtered.len(), 2);
    let kept = nms(filtered, 1, 2);
    assert_eq!(kept.len(), 1);
    assert_eq!(kept[0].confidence, 900);
    assert_eq!(kept[0].bbox.x, 0);
    assert_eq!(kept[0].bbox.w, 100);
}

#[test]
fn filter_rejects_degenerate_and_unknown_rows() {
    let rows = vec![
        // inverted box
        RawDetection { class_id: 2, confidence: 900, xmin: 100, ymin: 100, xmax: 50, ymax: 50 },
        // below the five-pixel noise floor
        RawDetection { class_id: 2, confidence: 900, xmin: 0, ymin: 0, xmax: 4, ymax: 100 },
        // unknown class
        RawDetection { class_id: 23, confidence: 900, xmin: 0, ymin: 0, xmax: 100, ymax: 100 },
        // a good one, clamped to the bitmap
        RawDetection { class_id: 2, confidence: 400, xmin: -10, ymin: 0, xmax: 100, ymax: 2000 },
    ];
    let out = filter_detections(&rows, 1000, 1000, 500, 500);
    assert_eq!(out.len(), 1);
    assert_eq!(out[0].bbox.x, 0);
    assert_eq!(out[0].bbox.y, 0);
    assert_eq!(out[0].bbox.w, 50); // 100 px at scale 1/2
    assert_eq!(out[0].bbox.h, 500);
}

#[test]
fn reading_order_joins_overlapping_columns() {
    // page width 800 (column threshold 120): a full-width block below a
    // narrow one whose horizontal span it fully covers
    let a = block(0, 100, 600, 50, 900);
    let b = block(500, 50, 100, 20, 900);
    let mut blocks = vec![a, b];
    assign_reading_order(&mut blocks, 800);
    assert_eq!(blocks[1].order, 0); // the higher block reads first
    assert_eq!(blocks[0].order, 1);
}

#[test]
fn reading_order_splits_true_columns() {
    // two left-column blocks and one right-column block on an 800pt page
    let mut blocks = vec![
        block(420, 100, 300, 50, 900),
        block(0, 300, 300, 50, 900),
        block(0, 100, 300, 50, 900),
    ];
    assign_reading_order(&mut blocks, 800);
    assert_eq!(blocks[2].order, 0); // left column, top
    assert_eq!(blocks[1].order, 1); // left column, bottom
    assert_eq!(blocks[0].order, 2); // right column
}

#[test]
fn segment_region_finds_one_centered_band() {
    // a 20x20 region, dark rows 8..12, at unit scale
    let img_w = 20usize;
    let img_h = 20usize;
    let mut rgb = vec![255u8; img_w * img_h * 3 + 3];
    for row in 8..12 {
        for col in 0..img_w {
            let idx = (row * img_w + col) * 3;
            rgb[idx] = 0;
            rgb[idx + 1] = 0;
            rgb[idx + 2] = 0;
        }
    }
    let lines = segment_region(&rgb, img_w, 0, 0, img_w, img_h, 0, 20, 20, 20);
    assert_eq!(lines.len(), 1);
    // the run spans rows 7..13, centered on the band's center row 10
    assert_eq!(lines[0].y, 10);
    assert_eq!(lines[0].height, 6);
}

#[test]
fn segment_region_blank_block_falls_back_to_one_band() {
    let rgb = vec![255u8; 20 * 20 * 3 + 3];
    let lines = segment_region(&rgb, 20, 0, 0, 20, 20, 100, 40, 20, 20);
    assert_eq!(lines.len(), 1);
    assert_eq!(lines[0].y, 120); // block top plus half its height
    assert_eq!(lines[0].height, 40);
}

#[test]
fn detect_lines_skips_non_navigable_blocks() {
    let rgb = vec![255u8; 20 * 20 * 3 + 3];
    let mut blocks = vec![
        block(0, 0, 20, 20, 900),
        LayoutBlock {
            bbox: BBox { x: 0, y: 0, w: 20, h: 20 },
            class_id: 8, // table: not navigable
            confidence: 900,
            order: 1,
            lines: Vec::new(),
        },
    ];
    detect_lines_for_blocks(&mut blocks, &rgb, 20, 20, 20, 20);
    assert_eq!(blocks[0].lines.len(), 1);
    assert_eq!(blocks[1].lines.len(), 0);
}

#[test]
fn analyze_detections_orders_and_annotates() {
    let rows = vec![
        RawDetection { class_id: 2, confidence: 900, xmin: 0, ymin: 200, xmax: 400, ymax: 300 },
        RawDetection { class_id: 2, confidence: 800, xmin: 0, ymin: 0, xmax: 400, ymax: 100 },
    ];
    let rgb = vec![255u8; 0]; // no pixels: every block gets its fallback band
    let analysis = analyze_detections(&rows, &rgb, 400, 400, 400, 400);
    assert_eq!(analysis.blocks.len(), 2);
    assert_eq!(analysis.blocks[0].order, 0);
    assert_eq!(analysis.blocks[1].order, 1);
    assert_eq!(analysis.blocks[0].bbox.y, 0); // top block reads first
    assert_eq!(analysis.blocks[1].bbox.y, 200);
    assert_eq!(analysis.blocks[0].lines.len(), 1);
}

#[test]
fn fallback_analysis_splits_the_page_into_eight_strips() {
    let analysis = fallback_analysis(800, 1000);
    assert_eq!(analysis.blocks.len(), 8);
    assert_eq!(analysis.page_width, 800);
    assert_eq!(analysis.page_height, 1000);
    let strip_h = 1000 / 8;
    for (i, b) in analysis.blocks.iter().enumerate() {
        assert_eq!(b.order, i);
        assert_eq!(b.class_id, 2);
        assert_eq!(b.bbox.x, 0);
        assert_eq!(b.bbox.y, i as i64 * strip_h);
        assert_eq!(b.bbox.w, 800);
        assert_eq!(b.bbox.h, strip_h);
        assert_eq!(b.lines.len(), 1);
        assert_eq!(b.lines[0].y, i as i64 * strip_h + strip_h / 2);
        assert_eq!(b.lines[0].height, strip_h);
    }
}

#[test]
fn navigable_classes_match_the_table() {
    for id in [0usize, 1, 2, 4, 6, 7, 11, 22] {
        assert!(is_navigable(id));
    }
    for id in [3usize, 5, 8, 9, 10, 12, 19, 23, 100] {
        assert!(!is_navigable(id));
    }
}

#[test]
fn nms_is_stable_for_equal_confidences() {
    // two disjoint boxes with equal confidence keep their input order
    let blocks = vec![
        block(0, 0, 100, 100, 700),
        block(500, 0, 100, 100, 700),
        block(0, 500, 100, 100, 900),
    ];
    let kept = nms(blocks, 1, 2);
    assert_eq!(kept.len(), 3);
    assert_eq!(kept[0].bbox.y, 500); // the strongest first
    assert_eq!(kept[1].bbox.x, 0); // then the tied pair, in input order
    assert_eq!(kept[2].bbox.x, 500);
}

#[test]
fn nms_twice_returns_the_first_result() {
    let blocks = vec![
        block(0, 0, 100, 100, 900),
        block(25, 0, 100, 100, 600),
        block(500, 0, 100, 100, 600),
    ];
    let once = nms(blocks, 1, 2);
    let again = nms(once.clone(), 1, 2);
    assert_eq!(once.len(), again.len());
    for (a, b) in once.iter().zip(again.iter()) {
        assert_eq!(a.bbox.x, b.bbox.x);
        assert_eq!(a.bbox.y, b.bbox.y);
        assert_eq!(a.bbox.w, b.bbox.w);
        assert_eq!(a.bbox.h, b.bbox.h);
        assert_eq!(a.confidence, b.confidence);
    }
}

#[test]
fn nms_keeps_duplicate_disjoint_boxes_but_not_overlapping_ones() {
    // an exact duplicate has IoU 1 with its twin and is suppressed
    let blocks = vec![block(0, 0, 100, 100, 900), block(0, 0, 100, 100, 900)];
    let kept = nms(blocks, 1, 2);
    assert_eq!(kept.len(), 1);
}
