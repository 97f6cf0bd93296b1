//! Writing a glyph's coverage into a surface in one solid color.
use vstd::prelude::*;
use crate::atlas::GlyphData;
use crate::codec::{u32_at, GlyphBitmap};
use crate::coverage::{coverage_visible, is_coverage_visible, scale_channel, scaled_channel};
use crate::graphics::{lemma_slot_in_range, lemma_slot_injective, Color, LimineFramebuffer, Rgb};

verus! {

/// `color` with every channel scaled by the coverage of `bits`.
pub open spec fn scaled_rgb(color: Rgb, bits: u32) -> Rgb {
    Rgb {
        r: scaled_channel(color.r, bits) as u32,
        g: scaled_channel(color.g, bits) as u32,
        b: scaled_channel(color.b, bits) as u32,
    }
}

/// The word written for a glyph pixel of coverage `bits`.
pub open spec fn glyph_pixel_value(fb: &LimineFramebuffer, color: Rgb, bits: u32) -> u32 {
    fb.pack(fb.clamp(scaled_rgb(color, bits)))
}

/// Glyph pixel `(gx, gy)`, placed with its top-left corner at `(ox, oy)`, lands on the surface
/// and is visible.
pub open spec fn pixel_drawn(
    fb: &LimineFramebuffer,
    g: GlyphBitmap,
    pixels: Seq<u8>,
    ox: int,
    oy: int,
    gx: int,
    gy: int,
) -> bool {
    &&& 0 <= gx < g.width_in_pixels
    &&& 0 <= gy < g.height_in_pixels
    &&& fb.in_bounds(ox + gx, oy + gy)
    &&& coverage_visible(u32_at(pixels, 4 * (gy * g.width_in_pixels + gx)))
}

/// Glyph pixel `(gx, gy)` is drawn into slot `j`.
pub open spec fn drawn_into(
    fb: &LimineFramebuffer,
    g: GlyphBitmap,
    pixels: Seq<u8>,
    ox: int,
    oy: int,
    gx: int,
    gy: int,
    j: int,
) -> bool {
    pixel_drawn(fb, g, pixels, ox, oy, gx, gy) && fb.slot(ox + gx, oy + gy) == j
}

/// `fb1` is `fb0` with glyph `g` (coverage bytes `pixels`) drawn in `color` with its top-left
/// corner at `(ox, oy)`: every drawn pixel holds its scaled color, and nothing else changed.
pub open spec fn blitted(
    fb0: &LimineFramebuffer,
    fb1: &LimineFramebuffer,
    g: GlyphBitmap,
    pixels: Seq<u8>,
    color: Rgb,
    ox: int,
    oy: int,
) -> bool {
    &&& fb1.wf()
    &&& fb1.same_geometry(*fb0)
    &&& fb1.pixels@.len() == fb0.pixels@.len()
    &&& forall|gx: int, gy: int|
        pixel_drawn(fb0, g, pixels, ox, oy, gx, gy) ==> #[trigger] fb1.pixels@[fb0.slot(ox + gx, oy + gy)]
            == glyph_pixel_value(fb0, color, u32_at(pixels, 4 * (gy * g.width_in_pixels + gx)))
    &&& forall|j: int|
        0 <= j < fb0.pixels@.len() && #[trigger] fb1.pixels@[j] != fb0.pixels@[j] ==> exists|gx: int, gy: int|
            drawn_into(fb0, g, pixels, ox, oy, gx, gy, j)
}

/// Draws `glyph_data` with its top-left corner at `(offset_x, offset_y)`. Pixels off the surface
/// and pixels of coverage below one thousandth are skipped; every other pixel is set to `color`
/// scaled by its coverage. Nothing else changes.
pub fn draw_glyph_image(
    fb: &mut LimineFramebuffer,
    glyph_data: &GlyphData,
    color: &Rgb,
    offset_x: i64,
    offset_y: i64,
)
    requires
        old(fb).wf(),
        glyph_data.wf(),
        offset_x + glyph_data.header.width_in_pixels <= i64::MAX,
        offset_y + glyph_data.header.height_in_pixels <= i64::MAX,
    ensures
        blitted(
            &*old(fb),
            &*final(fb),
            glyph_data.header,
            glyph_data.pixels@,
            *color,
            offset_x as int,
            offset_y as int,
        ),
{
    let ghost fb0 = *fb;
    let ghost pix0 = fb.pixels@;
    let ghost g = *glyph_data;
    let ghost s = fb.stride();
    let ghost ox = offset_x as int;
    let ghost oy = offset_y as int;
    let w = glyph_data.header.width_in_pixels;
    let h = glyph_data.header.height_in_pixels;
    let plen = glyph_data.pixels.len();
    assert(w * h <= usize::MAX);
    let mut index: usize = 0;
    let mut gy: u32 = 0;
    while gy < h
        invariant
            fb.wf(),
            fb.same_geometry(fb0),
            fb.pixels@.len() == pix0.len(),
            g == *glyph_data,
            g.wf(),
            w == g.header.width_in_pixels,
            h == g.header.height_in_pixels,
            s == fb0.stride(),
            s == fb.stride(),
            ox == offset_x as int,
            oy == offset_y as int,
            pix0 == fb0.pixels@,
            fb0.wf(),
            gy <= h,
            w * h <= usize::MAX,
            index == gy * w,
            offset_x + w <= i64::MAX,
            offset_y + h <= i64::MAX,
            forall|gx1: int, gy1: int|
                pixel_drawn(&fb0, g.header, g.pixels@, ox, oy, gx1, gy1) && gy1 < gy ==> #[trigger] fb.pixels@[fb0.slot(
                    ox + gx1,
                    oy + gy1,
                )] == glyph_pixel_value(&fb0, *color, g.coverage_at(gy1 * w + gx1)),
            forall|j: int|
                0 <= j < pix0.len() && #[trigger] fb.pixels@[j] != pix0[j] ==> exists|gx1: int, gy1: int|
                    gy1 < gy && drawn_into(&fb0, g.header, g.pixels@, ox, oy, gx1, gy1, j),
        decreases h - gy,
    {
        let mut gx: u32 = 0;
        while gx < w
            invariant
                fb.wf(),
                fb.same_geometry(fb0),
                fb.pixels@.len() == pix0.len(),
                g == *glyph_data,
                g.wf(),
                w == g.header.width_in_pixels,
                h == g.header.height_in_pixels,
                s == fb0.stride(),
                s == fb.stride(),
                ox == offset_x as int,
                oy == offset_y as int,
                pix0 == fb0.pixels@,
                fb0.wf(),
                gy < h,
                gx <= w,
                w * h <= usize::MAX,
                index == gy * w + gx,
                offset_x + w <= i64::MAX,
                offset_y + h <= i64::MAX,
                forall|gx1: int, gy1: int|
                    pixel_drawn(&fb0, g.header, g.pixels@, ox, oy, gx1, gy1) && (gy1 < gy || (gy1 == gy && gx1 < gx))
                        ==> #[trigger] fb.pixels@[fb0.slot(ox + gx1, oy + gy1)] == glyph_pixel_value(
                        &fb0,
                        *color,
                        g.coverage_at(gy1 * w + gx1),
                    ),
                forall|j: int|
                    0 <= j < pix0.len() && #[trigger] fb.pixels@[j] != pix0[j] ==> exists|gx1: int, gy1: int|
                        (gy1 < gy || (gy1 == gy && gx1 < gx)) && drawn_into(&fb0, g.header, g.pixels@, ox, oy, gx1, gy1, j),
            decreases w - gx,
        {
            assert(index < w * h) by (nonlinear_arith)
                requires
                    index == gy * w + gx,
                    gx < w,
                    gy < h,
            ;
            let cov = glyph_data.coverage(index);
            let px = offset_x + gx as i64;
            let py = offset_y + gy as i64;
            if is_coverage_visible(cov) && px >= 0 && py >= 0 && (px as u64) < fb.width && (py as u64)
                < fb.height {
                let scaled = Rgb {
                    r: scale_channel(color.r, cov),
                    g: scale_channel(color.g, cov),
                    b: scale_channel(color.b, cov),
                };
                let pixel_color = Color::new(fb, scaled);
                let ghost before = fb.pixels@;
                fb.set_pixel_color(px as u64, py as u64, pixel_color);
                proof {
                    let k = fb0.slot(px as int, py as int);
                    lemma_slot_in_range(s, fb0.height as int, px as int, py as int);
                    assert(fb.pixels@ == before.update(k, pixel_color.0));
                    assert(pixel_color.0 == glyph_pixel_value(&fb0, *color, cov));
                    assert(pixel_drawn(&fb0, g.header, g.pixels@, ox, oy, gx as int, gy as int));
                    assert forall|gx1: int, gy1: int|
                        pixel_drawn(&fb0, g.header, g.pixels@, ox, oy, gx1, gy1) && (gy1 < gy || (gy1 == gy && gx1 < gx
                            + 1)) implies #[trigger] fb.pixels@[fb0.slot(ox + gx1, oy + gy1)]
                        == glyph_pixel_value(&fb0, *color, g.coverage_at(gy1 * w + gx1)) by {
                        lemma_slot_in_range(s, fb0.height as int, ox + gx1, oy + gy1);
                        if fb0.slot(ox + gx1, oy + gy1) == k {
                            lemma_slot_injective(s, ox + gx1, oy + gy1, px as int, py as int);
                        } else {
                            assert(before[fb0.slot(ox + gx1, oy + gy1)] == glyph_pixel_value(
                                &fb0,
                                *color,
                                g.coverage_at(gy1 * w + gx1),
                            ));
                        }
                    }
                    assert forall|j: int|
                        0 <= j < pix0.len() && #[trigger] fb.pixels@[j] != pix0[j] implies exists|
                        gx1: int,
                        gy1: int,
                    | (gy1 < gy || (gy1 == gy && gx1 < gx + 1)) && drawn_into(&fb0, g.header, g.pixels@, ox, oy, gx1, gy1, j) by {
                        if j == k {
                            assert(drawn_into(&fb0, g.header, g.pixels@, ox, oy, gx as int, gy as int, j));
                        } else {
                            assert(before[j] != pix0[j]);
                        }
                    }
                }
            } else {
                proof {
                    assert forall|gx1: int, gy1: int|
                        pixel_drawn(&fb0, g.header, g.pixels@, ox, oy, gx1, gy1) && (gy1 < gy || (gy1 == gy && gx1 < gx
                            + 1)) implies #[trigger] fb.pixels@[fb0.slot(ox + gx1, oy + gy1)]
                        == glyph_pixel_value(&fb0, *color, g.coverage_at(gy1 * w + gx1)) by {
                        if gy1 == gy && gx1 == gx {
                            assert(!pixel_drawn(&fb0, g.header, g.pixels@, ox, oy, gx as int, gy as int));
                        }
                    }
                }
            }
            index = index + 1;
            gx = gx + 1;
        }
        assert(index == (gy + 1) * w) by (nonlinear_arith)
            requires
                index == gy * w + gx,
                gx == w,
        ;
        gy = gy + 1;
    }
}

} // verus!
