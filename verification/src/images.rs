//! Raw image sample data converted into RGBA pixels.

use vstd::prelude::*;

verus! {

/// Color space of an embedded image's sample data.
#[derive(Clone, Copy, Debug, PartialEq, Eq, Structural)]
pub enum ColorSpace {
    DeviceRGB,
    DeviceGray,
    DeviceCMYK,
}

/// Bytes per sample of a color space.
pub open spec fn spec_components(cs: ColorSpace) -> int {
    match cs {
        ColorSpace::DeviceRGB => 3,
        ColorSpace::DeviceGray => 1,
        ColorSpace::DeviceCMYK => 4,
    }
}

/// One CMYK channel converted to RGB: `(1 - c) * (1 - k)` of full
/// intensity, computed exactly over byte values.
pub open spec fn spec_cmyk_channel(c: u8, k: u8) -> int {
    (255 - c) * (255 - k) / 255
}

/// The RGBA bytes a pixel of the output holds: converted color for pixels
/// whose samples are present, white for the rest, alpha always opaque.
pub open spec fn spec_rgba_at(data: Seq<u8>, cs: ColorSpace, i: int, c: int) -> int {
    let avail = data.len() as int / spec_components(cs);
    if c == 3 {
        255
    } else if i >= avail {
        255
    } else {
        match cs {
            ColorSpace::DeviceRGB => data[i * 3 + c] as int,
            ColorSpace::DeviceGray => data[i] as int,
            ColorSpace::DeviceCMYK => spec_cmyk_channel(data[i * 4 + c], data[i * 4 + 3]),
        }
    }
}

/// Converts raw image samples into an RGBA buffer of `width * height`
/// pixels: RGB and gray samples are copied, CMYK samples are composited
/// onto white, and pixels past the available data stay white.
#[verifier::loop_isolation(false)]
pub fn convert_to_rgba(data: &[u8], width: u32, height: u32, color_space: &ColorSpace) -> (r: Vec<u8>)
    requires
        width as int * height as int <= 100_000_000,
    ensures
        r@.len() == width as int * height as int * 4,
        forall|i: int, c: int|
            0 <= i < width as int * height as int && 0 <= c < 4
                ==> #[trigger] r@[i * 4 + c] == spec_rgba_at(data@, *color_space, i, c),
{
    proof {
        assert(0 <= width as int * height as int) by (nonlinear_arith);
    }
    let pixel_count: u64 = (width as u64) * (height as u64);
    let total: u64 = pixel_count * 4;
    let mut rgba: Vec<u8> = Vec::new();
    let mut t: u64 = 0;
    while t < total
        invariant
            total == pixel_count * 4,
            pixel_count == width as int * height as int,
            t <= total,
            rgba@.len() == t,
            forall|k: int| 0 <= k < t ==> #[trigger] rgba@[k] == 255,
        decreases total - t,
    {
        rgba.push(255);
        t = t + 1;
    }

    let comps: usize = match color_space {
        ColorSpace::DeviceRGB => 3,
        ColorSpace::DeviceGray => 1,
        ColorSpace::DeviceCMYK => 4,
    };
    let avail: u64 = (data.len() as u64) / (comps as u64);
    let limit: u64 = if pixel_count <= avail { pixel_count } else { avail };
    proof {
        assert(avail == data@.len() as int / spec_components(*color_space));
    }
    let mut i: u64 = 0;
    while i < limit
        invariant
            total == pixel_count * 4,
            pixel_count == width as int * height as int,
            comps as int == spec_components(*color_space),
            avail == data@.len() as int / spec_components(*color_space),
            limit == (if pixel_count <= avail { pixel_count } else { avail }),
            i <= limit,
            rgba@.len() == total,
            forall|p: int, c: int|
                0 <= p < pixel_count && 0 <= c < 4 && (p >= i || c == 3)
                    ==> #[trigger] rgba@[p * 4 + c] == 255,
            forall|p: int, c: int|
                0 <= p < i && 0 <= c < 3
                    ==> #[trigger] rgba@[p * 4 + c] == spec_rgba_at(data@, *color_space, p, c),
        decreases limit - i,
    {
        proof {
            assert(i * comps + comps <= data@.len()) by (nonlinear_arith)
                requires
                    0 <= i < limit,
                    limit <= avail,
                    avail == data@.len() as int / comps as int,
                    1 <= comps as int <= 4,
            ;
            assert(i * 4 + 4 <= total) by (nonlinear_arith)
                requires
                    0 <= i < limit,
                    limit <= pixel_count,
                    total == pixel_count * 4,
            ;
        }
        let ghost before = rgba@;
        let base_out = (i * 4) as usize;
        match color_space {
            ColorSpace::DeviceRGB => {
                let base_in = (i * 3) as usize;
                let r0 = data[base_in];
                let g0 = data[base_in + 1];
                let b0 = data[base_in + 2];
                rgba.set(base_out, r0);
                rgba.set(base_out + 1, g0);
                rgba.set(base_out + 2, b0);
            },
            ColorSpace::DeviceGray => {
                let v = data[i as usize];
                rgba.set(base_out, v);
                rgba.set(base_out + 1, v);
                rgba.set(base_out + 2, v);
            },
            ColorSpace::DeviceCMYK => {
                let base_in = (i * 4) as usize;
                let c0 = data[base_in] as u32;
                let m0 = data[base_in + 1] as u32;
                let y0 = data[base_in + 2] as u32;
                let k0 = data[base_in + 3] as u32;
                proof {
                    assert(0 <= (255 - c0 as int) * (255 - k0 as int) <= 255 * 255
                        && 0 <= (255 - m0 as int) * (255 - k0 as int) <= 255 * 255
                        && 0 <= (255 - y0 as int) * (255 - k0 as int) <= 255 * 255)
                        by (nonlinear_arith)
                        requires
                            0 <= c0 as int <= 255,
                            0 <= m0 as int <= 255,
                            0 <= y0 as int <= 255,
                            0 <= k0 as int <= 255,
                    ;
                }
                let rr = ((255 - c0) * (255 - k0) / 255) as u8;
                let gg = ((255 - m0) * (255 - k0) / 255) as u8;
                let bb = ((255 - y0) * (255 - k0) / 255) as u8;
                proof {
                    let pc = (255 - c0 as int) * (255 - k0 as int);
                    let pm = (255 - m0 as int) * (255 - k0 as int);
                    let py = (255 - y0 as int) * (255 - k0 as int);
                    assert(0 <= pc <= 255 * 255 && 0 <= pm <= 255 * 255 && 0 <= py <= 255 * 255)
                        by (nonlinear_arith)
                        requires
                            pc == (255 - c0 as int) * (255 - k0 as int),
                            pm == (255 - m0 as int) * (255 - k0 as int),
                            py == (255 - y0 as int) * (255 - k0 as int),
                            0 <= c0 as int <= 255,
                            0 <= m0 as int <= 255,
                            0 <= y0 as int <= 255,
                            0 <= k0 as int <= 255,
                    ;
                    vstd::arithmetic::div_mod::lemma_div_pos_is_pos(pc, 255int);
                    vstd::arithmetic::div_mod::lemma_div_is_ordered(pc, 65025int, 255int);
                    vstd::arithmetic::div_mod::lemma_div_pos_is_pos(pm, 255int);
                    vstd::arithmetic::div_mod::lemma_div_is_ordered(pm, 65025int, 255int);
                    vstd::arithmetic::div_mod::lemma_div_pos_is_pos(py, 255int);
                    vstd::arithmetic::div_mod::lemma_div_is_ordered(py, 65025int, 255int);
                }
                rgba.set(base_out, rr);
                rgba.set(base_out + 1, gg);
                rgba.set(base_out + 2, bb);
            },
        }
        proof {
            assert forall|p: int, c: int|
                0 <= p < pixel_count && 0 <= c < 4 && (p >= i + 1 || c == 3)
                implies #[trigger] rgba@[p * 4 + c] == 255 by {
                assert(p * 4 + c != i * 4 && p * 4 + c != i * 4 + 1 && p * 4 + c != i * 4 + 2)
                    by (nonlinear_arith)
                    requires
                        0 <= p,
                        0 <= c < 4,
                        p >= i + 1 || c == 3,
                        0 <= i,
                ;
                assert(rgba@[p * 4 + c] == before[p * 4 + c]);
            }
            assert forall|p: int, c: int|
                0 <= p < i + 1 && 0 <= c < 3
                implies #[trigger] rgba@[p * 4 + c] == spec_rgba_at(data@, *color_space, p, c) by {
                if p < i {
                    assert(p * 4 + c < i * 4) by (nonlinear_arith)
                        requires
                            0 <= p < i,
                            0 <= c < 4,
                    ;
                    assert(rgba@[p * 4 + c] == before[p * 4 + c]);
                }
            }
        }
        i = i + 1;
    }
    proof {
        assert forall|p: int, c: int|
            0 <= p < pixel_count && 0 <= c < 4
            implies #[trigger] rgba@[p * 4 + c] == spec_rgba_at(data@, *color_space, p, c) by {
        }
    }
    rgba
}

} // verus!
