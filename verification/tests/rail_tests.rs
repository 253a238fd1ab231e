use railreader2::analyze::fallback_analysis;
use railreader2::rail::{NavResult, RailNav, ScrollDir};

// milli-pixel window: 1000 x 1000 screen pixels
const WW: i64 = 1_000_000;
const WH: i64 = 1_000_000;

fn active_nav() -> RailNav {
    let mut nav = RailNav::new();
    nav.set_analysis(fallback_analysis(800, 1000));
    // camera placed so the viewport center sits on the top of the page,
    // which selects the first strip
    nav.update_zoom(3000, 0, 500_000, WW, WH);
    assert!(nav.active);
    assert_eq!(nav.current_block, 0);
    nav
}

#[test]
fn activation_needs_zoom_and_blocks() {
    let mut nav = RailNav::new();
    nav.update_zoom(5000, 0, 0, WW, WH);
    assert!(!nav.active); // no analysis yet
    nav.set_analysis(fallback_analysis(800, 1000));
    assert!(nav.has_analysis());
    assert_eq!(nav.navigable_count(), 8);
    nav.update_zoom(2999, 0, 0, WW, WH);
    assert!(!nav.active); // below the threshold
    nav.update_zoom(3000, 0, 0, WW, WH);
    assert!(nav.active);
    nav.update_zoom(2000, 0, 0, WW, WH);
    assert!(!nav.active); // deactivates again
}

#[test]
fn activation_selects_the_nearest_block() {
    let mut nav = RailNav::new();
    nav.set_analysis(fallback_analysis(800, 1000));
    // camera centered near the bottom of the page: y_page ~ (WH/2 + 2_800_000)/3000 = 1100
    nav.update_zoom(3000, 0, -2_800_000, WW, WH);
    assert!(nav.active);
    assert_eq!(nav.current_block, 7);
    assert_eq!(nav.current_line, 0);
}

#[test]
fn next_then_prev_restores_the_cursor() {
    let mut nav = active_nav();
    nav.current_block = 3;
    let r1 = nav.next_line();
    assert!(matches!(r1, NavResult::Moved));
    assert_eq!(nav.current_block, 4);
    let r2 = nav.prev_line();
    assert!(matches!(r2, NavResult::Moved));
    assert_eq!(nav.current_block, 3);
    assert_eq!(nav.current_line, 0);
}

#[test]
fn next_line_reports_the_boundary_exactly_at_the_end() {
    let mut nav = active_nav();
    // eight blocks of one line each: seven moves, then the boundary
    for _ in 0..7 {
        assert!(matches!(nav.next_line(), NavResult::Moved));
    }
    assert!(matches!(nav.next_line(), NavResult::PageBoundaryNext));
    assert_eq!(nav.current_block, 7); // the cursor stays put
}

#[test]
fn prev_line_reports_the_boundary_at_the_start() {
    let mut nav = active_nav();
    assert!(matches!(nav.prev_line(), NavResult::PageBoundaryPrev));
    assert_eq!(nav.current_block, 0);
}

#[test]
fn cursor_ops_are_no_ops_while_inactive() {
    let mut nav = RailNav::new();
    nav.set_analysis(fallback_analysis(800, 1000));
    assert!(matches!(nav.next_line(), NavResult::Moved));
    assert_eq!(nav.current_block, 0);
    assert!(matches!(nav.prev_line(), NavResult::Moved));
    assert_eq!(nav.current_block, 0);
}

#[test]
fn jump_to_end_lands_on_the_last_line() {
    let mut nav = active_nav();
    nav.jump_to_end();
    assert_eq!(nav.current_block, 7);
    assert_eq!(nav.current_line, 0); // strips have one line each
}

#[test]
fn clamp_x_pins_a_wide_block_to_the_viewport() {
    let nav = active_nav();
    // margined block: left -40, right 840; at zoom 3000 its width 2_640_000
    // exceeds the window, so camera x stays in [-1_520_000, 120_000]
    assert_eq!(nav.clamp_x(0, 3000, WW), 0);
    assert_eq!(nav.clamp_x(-9_000_000, 3000, WW), WW - 840 * 3000);
    assert_eq!(nav.clamp_x(9_000_000, 3000, WW), 40 * 3000);
}

#[test]
fn clamp_x_centers_a_narrow_block() {
    let nav = active_nav();
    // at zoom 1000 the margined block spans 880_000 milli-pixels: centered
    let centered = nav.clamp_x(123, 1000, WW);
    // margined edges -40 and 840 scale to -40_000 and 840_000: centering
    // them puts the camera at (WW - 800_000) / 2
    assert_eq!(centered, 100_000);
}

#[test]
fn snap_eases_toward_the_target_and_completes() {
    let mut nav = active_nav();
    nav.start_snap_to_current(0, 0, 3000, WW, WH, 1000);
    assert!(nav.is_animating());
    let mut cx: i64 = 0;
    let mut cy: i64 = 0;
    // halfway through the 300 ms snap: 1 - (1/2)^3 = 7/8 of the way there
    let still = nav.tick(&mut cx, &mut cy, 1150, 16, 3000, WW);
    assert!(still);
    let target_x = WW / 20; // block left edge is 0
    let target_y = (WH - 2 * 62 * 3000) / 2; // first strip line at y 62
    assert_eq!(cx, target_x * 7 / 8);
    assert_eq!(cy, target_y * 7 / 8);
    // past the duration the camera rests exactly on the target
    let still = nav.tick(&mut cx, &mut cy, 1300, 16, 3000, WW);
    assert!(!still);
    assert_eq!(cx, target_x);
    assert_eq!(cy, target_y);
    assert!(!nav.is_animating());
}

#[test]
fn held_scroll_moves_and_clamps() {
    let mut nav = active_nav();
    nav.start_scroll(ScrollDir::Forward, 0);
    assert!(nav.is_animating());
    let mut cx: i64 = 0;
    let mut cy: i64 = 0;
    // a fresh hold scrolls at the start speed: 60 pt/s for 16 ms at zoom 3 is
    // 2880 milli-pixels leftward
    let still = nav.tick(&mut cx, &mut cy, 0, 16, 3000, WW);
    assert!(still);
    assert_eq!(cx, -2880);
    assert_eq!(cy, 0);
    nav.stop_scroll();
    assert!(!nav.is_animating());
    let still = nav.tick(&mut cx, &mut cy, 16, 16, 3000, WW);
    assert!(!still);
    assert_eq!(cx, -2880);
}

#[test]
fn scroll_never_pushes_the_block_out_of_view() {
    let mut nav = active_nav();
    nav.start_scroll(ScrollDir::Forward, 0);
    let mut cx: i64 = 0;
    let mut cy: i64 = 0;
    // many long frames: the camera must stop at the clamp boundary
    for frame in 0..2000u64 {
        nav.tick(&mut cx, &mut cy, frame * 100, 100, 3000, WW);
    }
    assert_eq!(cx, WW - 840 * 3000);
}

#[test]
fn set_analysis_resets_cursor_and_animation() {
    let mut nav = active_nav();
    nav.jump_to_end();
    nav.start_snap_to_current(0, 0, 3000, WW, WH, 0);
    nav.set_analysis(fallback_analysis(600, 600));
    assert_eq!(nav.current_block, 0);
    assert_eq!(nav.current_line, 0);
    assert!(!nav.is_animating());
    assert!(nav.active); // still zoomed in, new page is navigable
}
