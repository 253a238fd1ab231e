use railreader2::cleanup::CleanupReport;
use railreader2::colour_effect::ColourEffect;
use railreader2::images::{convert_to_rgba, ColorSpace};
use railreader2::tab::{center_page, clamp_camera, Camera, TabIdGen};
use railreader2::worker::{apply_arrival, queue_lookahead, submit_decision, InFlightSet, SubmitAction};

#[test]
fn cleanup_report_counts_and_formats() {
    let mut report = CleanupReport::new();
    assert_eq!(report.summary(), "Nothing to clean up.");
    report.record_removed(1024);
    report.record_removed(512);
    assert_eq!(report.files_removed, 2);
    assert_eq!(report.bytes_freed, 1536);
    assert_eq!(report.kb_tenths(), 15);
    assert_eq!(report.summary(), "Removed 2 file(s), freed 1.5 KB.");
}

#[test]
fn overlay_palettes_follow_the_effect() {
    let p = ColourEffect::Plain.overlay_palette();
    assert_eq!(p.dim.a, 120);
    assert!(p.block_reveal.is_some());
    assert_eq!(p.block_outline_width_tenths, 15);
    let hc = ColourEffect::HighContrast.overlay_palette();
    assert!(hc.block_reveal.is_none());
    assert_eq!(hc.block_outline.g, 255);
    assert_eq!(hc.block_outline_width_tenths, 25);
    assert_eq!(ColourEffect::Amber.label(), "Amber Filter");
    assert_eq!(ColourEffect::default(), ColourEffect::Plain);
}

#[test]
fn rgba_conversion_per_color_space() {
    let gray = convert_to_rgba(&[7, 200], 2, 1, &ColorSpace::DeviceGray);
    assert_eq!(gray, vec![7, 7, 7, 255, 200, 200, 200, 255]);

    let rgb = convert_to_rgba(&[1, 2, 3], 2, 1, &ColorSpace::DeviceRGB);
    // the second pixel has no data and stays white
    assert_eq!(rgb, vec![1, 2, 3, 255, 255, 255, 255, 255]);

    let cmyk = convert_to_rgba(&[0, 0, 0, 0, 255, 255, 255, 255], 2, 1, &ColorSpace::DeviceCMYK);
    assert_eq!(cmyk, vec![255, 255, 255, 255, 0, 0, 0, 255]);

    // half cyan, no black: red channel (255-128)*255/255 = 127
    let teal = convert_to_rgba(&[128, 0, 0, 0], 1, 1, &ColorSpace::DeviceCMYK);
    assert_eq!(teal, vec![127, 255, 255, 255]);
}

#[test]
fn tab_ids_count_up() {
    let mut gen = TabIdGen::new();
    assert_eq!(gen.next_tab_id(), 1);
    assert_eq!(gen.next_tab_id(), 2);
    assert_eq!(gen.next_tab_id(), 3);
}

#[test]
fn center_page_fits_and_centers() {
    let mut cam = Camera::default();
    // 1000x1000 px window (in milli-pixels), 800x1000 pt page
    center_page(&mut cam, 800, 1000, 1_000_000, 1_000_000);
    assert_eq!(cam.zoom, 1000); // min(1250, 1000)
    assert_eq!(cam.offset_x, (1_000_000 - 800_000) / 2);
    assert_eq!(cam.offset_y, 0);
    // degenerate input leaves the camera alone
    let before = cam;
    center_page(&mut cam, 0, 1000, 1_000_000, 1_000_000);
    assert_eq!(cam.offset_x, before.offset_x);
    assert_eq!(cam.zoom, before.zoom);
}

#[test]
fn clamp_camera_centers_or_pins() {
    let mut cam = Camera { offset_x: 123, offset_y: -9_999_999, zoom: 1000 };
    clamp_camera(&mut cam, 800, 1000, 1_000_000, 500_000);
    // narrow page: centered; tall page: pinned at its bottom edge
    assert_eq!(cam.offset_x, (1_000_000 - 800_000) / 2);
    assert_eq!(cam.offset_y, 500_000 - 1_000_000);
    cam.offset_y = 55;
    clamp_camera(&mut cam, 800, 1000, 1_000_000, 500_000);
    assert_eq!(cam.offset_y, 0);
}

#[test]
fn in_flight_set_suppresses_duplicates() {
    let mut set = InFlightSet::new();
    assert!(set.is_idle());
    assert!(set.submit(4));
    assert!(!set.submit(4)); // duplicate submission refused
    assert!(set.submit(5));
    assert!(set.is_in_flight(4));
    assert!(!set.is_idle());
    set.complete(4);
    assert!(!set.is_in_flight(4));
    assert!(set.is_in_flight(5));
}

#[test]
fn lookahead_skips_cached_and_missing_pages() {
    let cached = vec![3];
    let queue = queue_lookahead(1, 5, 4, &cached);
    assert_eq!(queue, vec![2, 4]); // 3 is cached, 5 is past the last page
    let none = queue_lookahead(4, 5, 3, &Vec::new());
    assert!(none.is_empty());
}

#[test]
fn submit_decision_prefers_cache_then_fallback_then_waiting() {
    assert_eq!(submit_decision(true, true, true), SubmitAction::UseCache);
    assert_eq!(submit_decision(false, false, false), SubmitAction::UseFallback);
    assert_eq!(submit_decision(false, true, true), SubmitAction::WaitPending);
    assert_eq!(submit_decision(false, true, false), SubmitAction::Submit);
}

#[test]
fn arrivals_apply_only_to_the_pending_current_page() {
    assert!(apply_arrival(4, true, 4));
    assert!(!apply_arrival(4, false, 4)); // superseded: flag cleared
    assert!(!apply_arrival(4, true, 5)); // a different page arrived
}
