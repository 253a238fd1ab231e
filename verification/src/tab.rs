//! Per-tab state helpers: tab identifiers, document outlines, and the
//! page-level camera with its centering and clamping rules.

use vstd::prelude::*;
use crate::rail::spec_half_toward_zero;

verus! {

/// Identifier of one tab.
pub type TabId = u64;

/// Hands out tab identifiers, counting up from one.
#[derive(Debug)]
pub struct TabIdGen {
    pub next_id: u64,
}

impl TabIdGen {
    pub fn new() -> (r: TabIdGen)
        ensures
            r.next_id == 1,
    {
        TabIdGen { next_id: 1 }
    }

    /// The next fresh tab identifier.
    pub fn next_tab_id(&mut self) -> (r: TabId)
        requires
            old(self).next_id < u64::MAX,
        ensures
            r == old(self).next_id,
            final(self).next_id == old(self).next_id + 1,
    {
        let id = self.next_id;
        self.next_id = self.next_id + 1;
        id
    }
}

/// One entry of a document outline tree.
#[derive(Debug)]
pub struct Outline {
    pub title: String,
    pub page: Option<i32>,
    pub children: Vec<Outline>,
}

/// Camera over a page: offsets in milli-pixels, zoom in thousandths.
#[derive(Clone, Copy, Debug)]
pub struct Camera {
    pub offset_x: i64,
    pub offset_y: i64,
    pub zoom: i64,
}

impl Default for Camera {
    /// The identity camera: no offset, unit zoom.
    fn default() -> (r: Camera)
        ensures
            r.offset_x == 0 && r.offset_y == 0 && r.zoom == 1000,
    {
        Camera { offset_x: 0, offset_y: 0, zoom: 1000 }
    }
}

/// Camera x and zoom after fitting a page into a window (see
/// [`center_page`]).
pub open spec fn spec_fit_zoom(page_w: int, page_h: int, ww: int, wh: int) -> int {
    let zx = ww / page_w;
    let zy = wh / page_h;
    if zx <= zy { zx } else { zy }
}

/// Zooms the camera so the whole page fits the window and centers it.
/// A no-op when the page or the window has no extent.
pub fn center_page(camera: &mut Camera, page_w: i64, page_h: i64, ww: i64, wh: i64)
    requires
        -crate::rail::CAMERA_LIMIT <= old(camera).offset_x <= crate::rail::CAMERA_LIMIT,
        -crate::rail::CAMERA_LIMIT <= old(camera).offset_y <= crate::rail::CAMERA_LIMIT,
        page_w <= crate::COORD_LIMIT,
        page_h <= crate::COORD_LIMIT,
        ww <= crate::rail::WINDOW_LIMIT,
        wh <= crate::rail::WINDOW_LIMIT,
    ensures
        (page_w <= 0 || page_h <= 0 || ww <= 0 || wh <= 0) ==> *final(camera) == *old(camera),
        !(page_w <= 0 || page_h <= 0 || ww <= 0 || wh <= 0) ==> {
            let zoom = spec_fit_zoom(page_w as int, page_h as int, ww as int, wh as int);
            &&& final(camera).zoom == zoom
            &&& final(camera).offset_x == spec_half_toward_zero(ww - page_w * zoom)
            &&& final(camera).offset_y == spec_half_toward_zero(wh - page_h * zoom)
        },
{
    if page_w <= 0 || page_h <= 0 || ww <= 0 || wh <= 0 {
        return;
    }
    let zx = ww / page_w;
    let zy = wh / page_h;
    let zoom = if zx <= zy { zx } else { zy };
    proof {
        vstd::arithmetic::div_mod::lemma_div_pos_is_pos(ww as int, page_w as int);
        vstd::arithmetic::div_mod::lemma_div_pos_is_pos(wh as int, page_h as int);
        assert(0 <= page_w * zoom <= page_w * zx) by (nonlinear_arith)
            requires
                0 < page_w,
                0 <= zoom <= zx,
        ;
        vstd::arithmetic::div_mod::lemma_fundamental_div_mod(ww as int, page_w as int);
        vstd::arithmetic::div_mod::lemma_mod_division_less_than_divisor(ww as int, page_w as int);
        assert(page_w * zx <= ww);
        assert(0 <= page_h * zoom <= page_h * zy) by (nonlinear_arith)
            requires
                0 < page_h,
                0 <= zoom <= zy,
        ;
        vstd::arithmetic::div_mod::lemma_fundamental_div_mod(wh as int, page_h as int);
        vstd::arithmetic::div_mod::lemma_mod_division_less_than_divisor(wh as int, page_h as int);
        assert(page_h * zy <= wh);
    }
    camera.zoom = zoom;
    let dx = ww - page_w * zoom;
    camera.offset_x = if dx >= 0 { dx / 2 } else { -((-dx) / 2) };
    let dy = wh - page_h * zoom;
    camera.offset_y = if dy >= 0 { dy / 2 } else { -((-dy) / 2) };
}

/// Camera x after the page-level clamp: a page narrower than the window
/// is centered, otherwise the camera stays between the positions that put
/// the page edges flush with the window edges.
pub open spec fn spec_clamp_page(offset: int, scaled: int, window: int) -> int {
    if scaled <= window {
        spec_half_toward_zero(window - scaled)
    } else {
        let min_o = window - scaled;
        if offset < min_o {
            min_o
        } else if offset > 0 {
            0
        } else {
            offset
        }
    }
}

/// Clamps both camera offsets so the page stays in view.
pub fn clamp_camera(camera: &mut Camera, page_w: i64, page_h: i64, ww: i64, wh: i64)
    requires
        -crate::rail::CAMERA_LIMIT <= old(camera).offset_x <= crate::rail::CAMERA_LIMIT,
        -crate::rail::CAMERA_LIMIT <= old(camera).offset_y <= crate::rail::CAMERA_LIMIT,
        0 < old(camera).zoom <= crate::rail::ZOOM_LIMIT,
        0 <= page_w <= crate::COORD_LIMIT,
        0 <= page_h <= crate::COORD_LIMIT,
        0 <= ww <= crate::rail::WINDOW_LIMIT,
        0 <= wh <= crate::rail::WINDOW_LIMIT,
    ensures
        final(camera).zoom == old(camera).zoom,
        final(camera).offset_x == spec_clamp_page(old(camera).offset_x as int,
            page_w * old(camera).zoom, ww as int),
        final(camera).offset_y == spec_clamp_page(old(camera).offset_y as int,
            page_h * old(camera).zoom, wh as int),
{
    let zoom_now = camera.zoom;
    proof {
        assert(0 <= page_w * zoom_now <= 20_000_000_000int
            && 0 <= page_h * zoom_now <= 20_000_000_000int) by (nonlinear_arith)
            requires
                0 <= page_w <= 1_000_000,
                0 <= page_h <= 1_000_000,
                0 < zoom_now <= 20_000,
        ;
    }
    let scaled_w = page_w * zoom_now;
    let scaled_h = page_h * zoom_now;
    if scaled_w <= ww {
        let d = ww - scaled_w;
        camera.offset_x = if d >= 0 { d / 2 } else { -((-d) / 2) };
    } else {
        let min_x = ww - scaled_w;
        if camera.offset_x < min_x {
            camera.offset_x = min_x;
        } else if camera.offset_x > 0 {
            camera.offset_x = 0;
        }
    }
    if scaled_h <= wh {
        let d = wh - scaled_h;
        camera.offset_y = if d >= 0 { d / 2 } else { -((-d) / 2) };
    } else {
        let min_y = wh - scaled_h;
        if camera.offset_y < min_y {
            camera.offset_y = min_y;
        } else if camera.offset_y > 0 {
            camera.offset_y = 0;
        }
    }
}

} // verus!
