use glyph_console::atlas::GlyphBitmapIterator;
use glyph_console::codec::{encode_glyph_bitmaps, GlyphBitmap, GlyphBitmapsHeader, GlyphSource};
use glyph_console::compositor::draw_glyph_image;
use glyph_console::coverage::{is_coverage_visible, scale_channel};
use glyph_console::graphics::{Color, ColorError, LimineFramebuffer, LimineFramebufferMemoryModel, Rgb};

fn surface(width: u64, height: u64) -> LimineFramebuffer {
    LimineFramebuffer {
        pixels: vec![0; (width * height) as usize],
        width,
        height,
        pitch: width * 4,
        bpp: 32,
        memory_model: LimineFramebufferMemoryModel::Rgb,
        red_mask_size: 8,
        red_mask_shift: 16,
        green_mask_size: 8,
        green_mask_shift: 8,
        blue_mask_size: 8,
        blue_mask_shift: 0,
    }
}

#[test]
fn coverage_threshold() {
    assert!(!is_coverage_visible(0.0f32.to_bits()));
    assert!(!is_coverage_visible(0.0009f32.to_bits()));
    assert!(is_coverage_visible(0.001f32.to_bits()));
    assert!(is_coverage_visible(0.0011f32.to_bits()));
    assert!(is_coverage_visible(1.0f32.to_bits()));
    assert!(!is_coverage_visible((-0.5f32).to_bits()));
    assert!(!is_coverage_visible(f32::NAN.to_bits()));
    assert!(is_coverage_visible(f32::INFINITY.to_bits()));
    assert!(!is_coverage_visible(f32::MIN_POSITIVE.to_bits()));
}

#[test]
fn coverage_scales_channels_with_rounding() {
    assert_eq!(scale_channel(255, 1.0f32.to_bits()), 255);
    assert_eq!(scale_channel(255, 0.5f32.to_bits()), 128);
    assert_eq!(scale_channel(200, 0.25f32.to_bits()), 50);
    assert_eq!(scale_channel(100, 0.0f32.to_bits()), 0);
    assert_eq!(scale_channel(255, 0.0011f32.to_bits()), 0);
    assert_eq!(scale_channel(1000, 0.0011f32.to_bits()), 1);
    assert_eq!(scale_channel(255, 2.0f32.to_bits()), 255);
    assert_eq!(scale_channel(255, (-1.0f32).to_bits()), 0);
    assert_eq!(scale_channel(u32::MAX, 1.0f32.to_bits()), u32::MAX);
}

#[test]
fn color_packs_and_clamps() {
    let fb = surface(4, 4);
    let c = Color::new(&fb, Rgb { r: 300, g: 10, b: 20 });
    assert_eq!(c.0, (255 << 16) | (10 << 8) | 20);
    let c = Color::new_closest(&fb, Rgb { r: 1, g: 2, b: 3 });
    assert_eq!(c.0, 0x010203);
}

#[test]
fn color_within_bounds_or_error() {
    let fb = surface(4, 4);
    let ok = Color::new_if_within_bounds(&fb, Rgb { r: 255, g: 0, b: 100 });
    assert_eq!(ok, Ok(Color(0xFF0064)));
    let err = Color::new_if_within_bounds(&fb, Rgb { r: 0, g: 256, b: 0 });
    assert_eq!(err, Err(ColorError::ColorTooLarge));
}

#[test]
fn five_bit_channels() {
    let mut fb = surface(2, 2);
    fb.bpp = 16;
    fb.pitch = 4;
    fb.red_mask_size = 5;
    fb.red_mask_shift = 11;
    fb.green_mask_size = 6;
    fb.green_mask_shift = 5;
    fb.blue_mask_size = 5;
    fb.blue_mask_shift = 0;
    let c = Color::new(&fb, Rgb { r: 255, g: 255, b: 255 });
    assert_eq!(c.0, 0xFFFF);
}

#[test]
fn pixel_offset_and_writes() {
    let mut fb = surface(3, 2);
    fb.pitch = 16;
    fb.pixels = vec![0; 8];
    assert_eq!(fb.get_pixel_offset(2, 1), 6);
    fb.set_pixel_color(2, 1, Color(7));
    assert_eq!(fb.pixels[6], 7);
    fb.set_pixel_color(3, 0, Color(9));
    fb.set_pixel_color(0, 2, Color(9));
    assert!(fb.pixels.iter().all(|p| *p == 0 || *p == 7));
}

#[test]
fn fill_sets_visible_pixels_only() {
    let mut fb = surface(3, 2);
    fb.pitch = 16;
    fb.pixels = vec![1; 8];
    fb.fill(Color(5));
    assert_eq!(fb.pixels, vec![5, 5, 5, 1, 5, 5, 5, 1]);
}

fn atlas_bytes(coverage: &[f32], w: u32, h: u32) -> Vec<u8> {
    let glyphs = vec![GlyphSource {
        bitmap: GlyphBitmap {
            glyph: 'g',
            width_in_pixels: w,
            height_in_pixels: h,
            advance_width: w,
            left_side_bearing: 0,
        },
        coverage: coverage.iter().map(|v| v.to_bits()).collect(),
    }];
    encode_glyph_bitmaps(&GlyphBitmapsHeader::new(1, 2, 0, 3), &glyphs)
}

#[test]
fn blit_scales_color_by_coverage() {
    let bytes = atlas_bytes(&[1.0, 0.5, 0.0005, 0.25], 2, 2);
    let atlas = GlyphBitmapIterator::new_at_address(&bytes, 0).ok().unwrap();
    let g = atlas.glyph_data('g').unwrap();
    let mut fb = surface(4, 4);
    draw_glyph_image(&mut fb, &g, &Rgb { r: 200, g: 100, b: 40 }, 1, 1);
    assert_eq!(fb.pixels[5], (200 << 16) | (100 << 8) | 40);
    assert_eq!(fb.pixels[6], (100 << 16) | (50 << 8) | 20);
    assert_eq!(fb.pixels[9], 0);
    assert_eq!(fb.pixels[10], (50 << 16) | (25 << 8) | 10);
    let changed = fb.pixels.iter().filter(|p| **p != 0).count();
    assert_eq!(changed, 3);
}

#[test]
fn blit_clips_at_every_edge() {
    let bytes = atlas_bytes(&[1.0; 9], 3, 3);
    let atlas = GlyphBitmapIterator::new_at_address(&bytes, 0).ok().unwrap();
    let g = atlas.glyph_data('g').unwrap();
    let white = Rgb { r: 255, g: 255, b: 255 };
    let mut fb = surface(4, 4);
    draw_glyph_image(&mut fb, &g, &white, -1, -2);
    let lit: Vec<usize> = (0..16).filter(|i| fb.pixels[*i] != 0).collect();
    assert_eq!(lit, vec![0, 1]);
    let mut fb = surface(4, 4);
    draw_glyph_image(&mut fb, &g, &white, 2, 3);
    let lit: Vec<usize> = (0..16).filter(|i| fb.pixels[*i] != 0).collect();
    assert_eq!(lit, vec![14, 15]);
    let mut fb = surface(4, 4);
    draw_glyph_image(&mut fb, &g, &white, 10, 10);
    assert!(fb.pixels.iter().all(|p| *p == 0));
}
