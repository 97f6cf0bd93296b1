use glyph_console::atlas::GlyphBitmapIterator;
use glyph_console::codec::{
    encode_glyph_bitmaps, GlyphBitmap, GlyphBitmapIterError, GlyphBitmapsHeader, GlyphSource,
};

fn glyph(c: char, w: u32, h: u32, advance: u32, bearing: u32, coverage: &[f32]) -> GlyphSource {
    GlyphSource {
        bitmap: GlyphBitmap {
            glyph: c,
            width_in_pixels: w,
            height_in_pixels: h,
            advance_width: advance,
            left_side_bearing: bearing,
        },
        coverage: coverage.iter().map(|v| v.to_bits()).collect(),
    }
}

fn sample_glyphs() -> Vec<GlyphSource> {
    vec![
        glyph(' ', 0, 0, 7, 0, &[]),
        glyph('A', 2, 3, 9, 1, &[0.0, 0.25, 0.5, 0.75, 1.0, 0.125]),
        glyph('\u{20AC}', 1, 2, 11, 2, &[0.3, 0.9]),
    ]
}

#[test]
fn header_new_keeps_fields() {
    let h = GlyphBitmapsHeader::new(3, 40, 12, 50);
    assert_eq!(h.num_glyphs, 3);
    assert_eq!(h.ascent, 40);
    assert_eq!(h.descent, 12);
    assert_eq!(h.line_gap, 50);
}

#[test]
fn encoding_layout_is_byte_exact() {
    let header = GlyphBitmapsHeader::new(1, 0x01020304, 5, 6);
    let glyphs = vec![glyph('B', 1, 1, 2, 3, &[1.0])];
    let bytes = encode_glyph_bitmaps(&header, &glyphs);
    assert_eq!(bytes.len(), 16 + 20 + 4);
    assert_eq!(&bytes[0..8], &[1, 0, 0, 0, 4, 3, 2, 1]);
    assert_eq!(&bytes[16..20], &[0x42, 0, 0, 0]);
    assert_eq!(&bytes[36..40], &1.0f32.to_bits().to_le_bytes());
}

#[test]
fn round_trip_keeps_every_field_and_coverage_bit() {
    let glyphs = sample_glyphs();
    let header = GlyphBitmapsHeader::new(glyphs.len() as u16, 40, 12, 50);
    let bytes = encode_glyph_bitmaps(&header, &glyphs);
    let atlas = GlyphBitmapIterator::new_at_address(&bytes, 0).ok().unwrap();
    assert_eq!(*atlas.header(), header);
    for g in &glyphs {
        let d = atlas.glyph_data(g.bitmap.glyph).unwrap();
        assert_eq!(d.header, g.bitmap);
        assert_eq!(d.pixels.len(), 4 * g.coverage.len());
        for (i, bits) in g.coverage.iter().enumerate() {
            assert_eq!(d.coverage(i), *bits);
            assert_eq!(f32::from_bits(d.coverage(i)), f32::from_bits(*bits));
        }
    }
}

#[test]
fn lookup_finds_dense_and_fallback_codepoints() {
    let glyphs = sample_glyphs();
    let header = GlyphBitmapsHeader::new(glyphs.len() as u16, 40, 12, 50);
    let bytes = encode_glyph_bitmaps(&header, &glyphs);
    let atlas = GlyphBitmapIterator::new_at_address(&bytes, 8).ok().unwrap();
    assert_eq!(atlas.glyph_data('A').unwrap().header.advance_width, 9);
    assert_eq!(atlas.glyph_data('\u{20AC}').unwrap().header.left_side_bearing, 2);
    assert_eq!(atlas.glyph_data(' ').unwrap().header.width_in_pixels, 0);
}

#[test]
fn lookup_of_absent_codepoint_is_none() {
    let glyphs = sample_glyphs();
    let header = GlyphBitmapsHeader::new(glyphs.len() as u16, 40, 12, 50);
    let bytes = encode_glyph_bitmaps(&header, &glyphs);
    let atlas = GlyphBitmapIterator::new_at_address(&bytes, 0).ok().unwrap();
    assert!(atlas.glyph_data('z').is_none());
    assert!(atlas.glyph_data('\u{00FF}').is_none());
    assert!(atlas.glyph_data('\u{1F600}').is_none());
}

#[test]
fn first_of_two_equal_codepoints_wins() {
    let glyphs = vec![glyph('x', 0, 0, 3, 0, &[]), glyph('x', 0, 0, 4, 0, &[])];
    let header = GlyphBitmapsHeader::new(2, 1, 1, 1);
    let bytes = encode_glyph_bitmaps(&header, &glyphs);
    let atlas = GlyphBitmapIterator::new_at_address(&bytes, 0).ok().unwrap();
    assert_eq!(atlas.glyph_data('x').unwrap().header.advance_width, 3);
}

#[test]
fn unaligned_blob_is_refused() {
    let glyphs = sample_glyphs();
    let header = GlyphBitmapsHeader::new(glyphs.len() as u16, 40, 12, 50);
    let bytes = encode_glyph_bitmaps(&header, &glyphs);
    let r = GlyphBitmapIterator::new_at_address(&bytes, 2);
    assert!(matches!(r, Err(GlyphBitmapIterError::AdressUnaligned)));
}

#[test]
fn truncated_blob_is_refused() {
    let glyphs = sample_glyphs();
    let header = GlyphBitmapsHeader::new(glyphs.len() as u16, 40, 12, 50);
    let bytes = encode_glyph_bitmaps(&header, &glyphs);
    let short = &bytes[..bytes.len() - 1];
    assert!(matches!(
        GlyphBitmapIterator::new_at_address(short, 0),
        Err(GlyphBitmapIterError::Truncated)
    ));
    assert!(matches!(
        GlyphBitmapIterator::new_at_address(&bytes[..10], 0),
        Err(GlyphBitmapIterError::Truncated)
    ));
    let more = GlyphBitmapsHeader::new(4, 40, 12, 50);
    let bytes = encode_glyph_bitmaps(&more, &glyphs);
    assert!(matches!(
        GlyphBitmapIterator::new_at_address(&bytes, 0),
        Err(GlyphBitmapIterError::Truncated)
    ));
}

#[test]
fn invalid_codepoint_is_refused() {
    let header = GlyphBitmapsHeader::new(1, 1, 1, 1);
    let mut bytes = encode_glyph_bitmaps(&header, &vec![glyph('a', 0, 0, 1, 0, &[])]);
    bytes[16..20].copy_from_slice(&0xD800u32.to_le_bytes());
    assert!(matches!(
        GlyphBitmapIterator::new_at_address(&bytes, 0),
        Err(GlyphBitmapIterError::InvalidCodepoint)
    ));
}

#[test]
fn empty_atlas_opens() {
    let header = GlyphBitmapsHeader::new(0, 1, 2, 3);
    let bytes = encode_glyph_bitmaps(&header, &Vec::new());
    assert_eq!(bytes.len(), 16);
    let atlas = GlyphBitmapIterator::new_at_address(&bytes, 0).ok().unwrap();
    assert_eq!(atlas.header().line_gap, 3);
    assert!(atlas.glyph_data('a').is_none());
}

#[test]
fn open_checks_the_real_address() {
    let glyphs = vec![glyph('q', 1, 1, 1, 0, &[1.0])];
    let header = GlyphBitmapsHeader::new(1, 1, 1, 1);
    let encoded = encode_glyph_bitmaps(&header, &glyphs);
    let mut buffer: Vec<u8> = vec![0; encoded.len() + 8];
    let start = (4 - (buffer.as_ptr() as usize % 4)) % 4;
    buffer[start..start + encoded.len()].copy_from_slice(&encoded);
    let atlas = GlyphBitmapIterator::new(&buffer[start..start + encoded.len()]).ok().unwrap();
    assert_eq!(atlas.glyph_data('q').unwrap().header.advance_width, 1);
    buffer[start + 1..start + 1 + encoded.len()].copy_from_slice(&encoded);
    assert!(matches!(
        GlyphBitmapIterator::new(&buffer[start + 1..start + 1 + encoded.len()]),
        Err(GlyphBitmapIterError::AdressUnaligned)
    ));
}
