use glyph_console::atlas::GlyphBitmapIterator;
use glyph_console::codec::{encode_glyph_bitmaps, GlyphBitmap, GlyphBitmapsHeader, GlyphSource};
use glyph_console::graphics::{LimineFramebuffer, LimineFramebufferMemoryModel, Rgb};
use glyph_console::text_rendering::{TextRenderer, TextRendererSettings, Vec2};

fn surface(width: u64, height: u64) -> LimineFramebuffer {
    LimineFramebuffer {
        pixels: vec![0; (width * height) as usize],
        width,
        height,
        pitch: width * 4,
        bpp: 32,
        memory_model: LimineFramebufferMemoryModel::Rgb,
        red_mask_size: 8,
        red_mask_shift: 16,
        green_mask_size: 8,
        green_mask_shift: 8,
        blue_mask_size: 8,
        blue_mask_shift: 0,
    }
}

fn glyph(c: char, w: u32, h: u32, advance: u32) -> GlyphSource {
    GlyphSource {
        bitmap: GlyphBitmap {
            glyph: c,
            width_in_pixels: w,
            height_in_pixels: h,
            advance_width: advance,
            left_side_bearing: 0,
        },
        coverage: vec![1.0f32.to_bits(); (w * h) as usize],
    }
}

/// Ascent 8, descent 2, line gap 12; 'a' is 20 wide with advance 25, 'W' is 150 wide.
fn atlas_bytes() -> Vec<u8> {
    let glyphs = vec![glyph('a', 20, 4, 25), glyph('W', 150, 2, 160), glyph(' ', 0, 0, 5)];
    encode_glyph_bitmaps(&GlyphBitmapsHeader::new(glyphs.len() as u16, 8, 2, 12), &glyphs)
}

fn settings(atlas: GlyphBitmapIterator<'_>) -> TextRendererSettings<'_> {
    TextRendererSettings {
        base_pixel_offset: Vec2 { x: 0, y: 0 },
        vertical_marginal: 5,
        horizontal_marginal: 10,
        line_gap: 12,
        text_color: Rgb { r: 255, g: 0, b: 100 },
        background_color: Rgb { r: 1, g: 2, b: 3 },
        glyph_bitmaps: atlas,
    }
}

#[test]
fn new_renderer_starts_below_ascent() {
    let bytes = atlas_bytes();
    let atlas = GlyphBitmapIterator::new_at_address(&bytes, 0).ok().unwrap();
    let r = TextRenderer::new(settings(atlas));
    assert_eq!(r.current_pixel_offset(), Vec2 { x: 0, y: 8 });
    assert_eq!(r.baseline_origin(), Vec2 { x: 0, y: 8 });
    assert!(r.history_chars().is_empty());
}

#[test]
fn glyphs_wrap_at_the_right_margin() {
    let bytes = atlas_bytes();
    let atlas = GlyphBitmapIterator::new_at_address(&bytes, 0).ok().unwrap();
    let mut r = TextRenderer::new(settings(atlas));
    let mut fb = surface(100, 200);
    let mut pens = Vec::new();
    for _ in 0..5 {
        r.add_text(&mut fb, "a");
        pens.push(r.current_pixel_offset());
    }
    assert_eq!(
        pens,
        vec![
            Vec2 { x: 25, y: 8 },
            Vec2 { x: 50, y: 8 },
            Vec2 { x: 75, y: 8 },
            Vec2 { x: 25, y: 20 },
            Vec2 { x: 50, y: 20 },
        ]
    );
    assert_eq!(r.history_chars(), vec!['a'; 5]);
}

#[test]
fn wide_glyph_at_line_start_is_placed_not_wrapped() {
    let bytes = atlas_bytes();
    let atlas = GlyphBitmapIterator::new_at_address(&bytes, 0).ok().unwrap();
    let mut r = TextRenderer::new(settings(atlas));
    let mut fb = surface(100, 200);
    r.add_text(&mut fb, "W");
    assert_eq!(r.current_pixel_offset(), Vec2 { x: 160, y: 8 });
    r.add_text(&mut fb, "W");
    assert_eq!(r.current_pixel_offset(), Vec2 { x: 160, y: 20 });
}

#[test]
fn missing_glyph_advances_nothing_and_draws_nothing() {
    let bytes = atlas_bytes();
    let atlas = GlyphBitmapIterator::new_at_address(&bytes, 0).ok().unwrap();
    let mut r = TextRenderer::new(settings(atlas));
    let mut fb = surface(100, 200);
    r.add_text(&mut fb, "a");
    let before = fb.pixels.clone();
    let pen = r.current_pixel_offset();
    r.add_text(&mut fb, "z\u{1F600}");
    assert_eq!(r.current_pixel_offset(), pen);
    assert_eq!(fb.pixels, before);
}

#[test]
fn glyph_pixels_land_above_the_baseline() {
    let bytes = atlas_bytes();
    let atlas = GlyphBitmapIterator::new_at_address(&bytes, 0).ok().unwrap();
    let mut r = TextRenderer::new(settings(atlas));
    let mut fb = surface(100, 200);
    r.add_text(&mut fb, "a");
    let color = (255u32 << 16) | 100;
    for y in 0..200u64 {
        for x in 0..100u64 {
            let lit = fb.pixels[(y * 100 + x) as usize] == color;
            let inside = x < 20 && (5..9).contains(&y);
            assert_eq!(lit, inside, "pixel {x},{y}");
        }
    }
}

#[test]
fn newline_moves_to_next_line_start() {
    let bytes = atlas_bytes();
    let atlas = GlyphBitmapIterator::new_at_address(&bytes, 0).ok().unwrap();
    let mut r = TextRenderer::new(settings(atlas));
    let mut fb = surface(100, 200);
    r.add_text(&mut fb, "aa\na");
    assert_eq!(r.current_pixel_offset(), Vec2 { x: 25, y: 20 });
}

#[test]
fn overflow_reflows_newest_line_to_the_lowest_row() {
    let bytes = atlas_bytes();
    let atlas = GlyphBitmapIterator::new_at_address(&bytes, 0).ok().unwrap();
    let mut r = TextRenderer::new(settings(atlas));
    let mut fb = surface(100, 40);
    r.add_text(&mut fb, "a\na\n");
    assert_eq!(r.current_pixel_offset(), Vec2 { x: 0, y: 32 });
    assert_eq!(r.baseline_origin(), Vec2 { x: 0, y: 8 });
    r.add_text(&mut fb, "a\n");
    // lowest row is 40 - (5 + 2) = 33; the new line would sit at 44
    assert_eq!(r.current_pixel_offset(), Vec2 { x: 0, y: 33 });
    assert_eq!(r.baseline_origin(), Vec2 { x: 0, y: -3 });
    let text: String = r.history_chars().into_iter().collect();
    assert_eq!(text, "a\na\na\n");
    // the surface was cleared, then the three lines drawn again 11 rows higher
    let background = 0x010203;
    let color = (255u32 << 16) | 100;
    for y in 0..40u64 {
        for x in 0..100u64 {
            let p = fb.pixels[(y * 100 + x) as usize];
            let lit_row = (6..10).contains(&y) || (18..22).contains(&y);
            let expected = if x < 20 && lit_row { color } else { background };
            assert_eq!(p, expected, "pixel {x},{y}");
        }
    }
}

#[test]
fn replay_matches_a_fresh_render_from_the_new_origin() {
    let bytes = atlas_bytes();
    let atlas = GlyphBitmapIterator::new_at_address(&bytes, 0).ok().unwrap();
    let mut r = TextRenderer::new(settings(atlas));
    let mut fb = surface(100, 40);
    r.add_text(&mut fb, "aaaa a\naa\na");
    assert_eq!(r.baseline_origin(), Vec2 { x: 0, y: -3 });
    let origin = r.baseline_origin();
    let pen = r.current_pixel_offset();
    let history: String = r.history_chars().into_iter().collect();

    let atlas2 = GlyphBitmapIterator::new_at_address(&bytes, 0).ok().unwrap();
    let mut s = settings(atlas2);
    s.base_pixel_offset = Vec2 { x: origin.x, y: origin.y - 8 };
    let mut fresh = TextRenderer::new(s);
    let mut fb2 = surface(100, 40);
    fb2.fill(glyph_console::graphics::Color(0x010203));
    fresh.add_text(&mut fb2, &history);
    assert_eq!(fresh.current_pixel_offset(), pen);
    assert_eq!(fb2.pixels, fb.pixels);
}

#[test]
fn full_history_forgets_lines_above_the_current_one() {
    let bytes = atlas_bytes();
    let atlas = GlyphBitmapIterator::new_at_address(&bytes, 0).ok().unwrap();
    let mut r = TextRenderer::new(settings(atlas));
    let mut fb = surface(100, 100_000);
    let line = "a\n".repeat(2047);
    r.add_text(&mut fb, &line);
    assert_eq!(r.history_bytes(), 4094);
    r.add_text(&mut fb, "aa");
    r.add_text(&mut fb, "a");
    assert_eq!(r.history_chars(), vec!['a'; 3]);
    assert_eq!(r.baseline_origin(), Vec2 { x: 0, y: 8 + 12 * 2047 });
    assert_eq!(r.current_pixel_offset(), Vec2 { x: 75, y: 8 + 12 * 2047 });
}

#[test]
fn overlong_line_forgets_everything_before_the_new_character() {
    let bytes = atlas_bytes();
    let atlas = GlyphBitmapIterator::new_at_address(&bytes, 0).ok().unwrap();
    let mut r = TextRenderer::new(settings(atlas));
    let mut fb = surface(100, 200);
    r.add_text(&mut fb, "a");
    let unknown = "z".repeat(4095);
    r.add_text(&mut fb, &unknown);
    assert_eq!(r.history_bytes(), 4096);
    let pen = r.current_pixel_offset();
    r.add_text(&mut fb, "z");
    assert_eq!(r.history_chars(), vec!['z']);
    assert_eq!(r.baseline_origin(), pen);
}
