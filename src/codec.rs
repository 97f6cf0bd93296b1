//! The binary atlas format: header, glyph records, coverage payloads.
use vstd::prelude::*;

verus! {

/// Byte size of the atlas header (`u16` count, two bytes of padding, three `u32` metrics).
pub const HEADER_SIZE: usize = 16;

/// Byte size of one glyph record (five `u32` fields).
pub const RECORD_SIZE: usize = 20;

/// The fixed-size record at the start of an atlas blob.
#[derive(Clone, Copy, Debug, PartialEq, Eq, Structural)]
pub struct GlyphBitmapsHeader {
    pub num_glyphs: u16,
    pub ascent: u32,
    pub descent: u32,
    pub line_gap: u32,
}

impl GlyphBitmapsHeader {
    pub fn new(num_glyphs: u16, ascent: u32, descent: u32, line_gap: u32) -> (r: Self)
        ensures
            r == (GlyphBitmapsHeader { num_glyphs, ascent, descent, line_gap }),
    {
        GlyphBitmapsHeader { num_glyphs, ascent, descent, line_gap }
    }
}

/// The metrics of one glyph, as stored in front of its coverage payload.
#[derive(Clone, Copy, Debug, PartialEq, Eq, Structural)]
pub struct GlyphBitmap {
    pub glyph: char,
    pub width_in_pixels: u32,
    pub height_in_pixels: u32,
    pub advance_width: u32,
    pub left_side_bearing: u32,
}

impl GlyphBitmap {
    /// Number of coverage values that follow the record.
    pub open spec fn pixel_count(self) -> nat {
        (self.width_in_pixels * self.height_in_pixels) as nat
    }
}

/// Why a blob could not be opened as an atlas.
#[derive(Clone, Copy, Debug, PartialEq, Eq, Structural)]
pub enum GlyphBitmapIterError {
    /// The blob does not start on a 4-byte boundary.
    AdressUnaligned,
    /// The blob ends before the header, a record or a coverage payload does.
    Truncated,
    /// A record's codepoint is not a Unicode scalar value.
    InvalidCodepoint,
}

/// Little-endian `u16` from two bytes.
pub open spec fn le_u16(b0: u8, b1: u8) -> u16 {
    ((b0 as u16) | ((b1 as u16) << 8u16)) as u16
}

/// Little-endian `u32` from four bytes.
pub open spec fn le_u32(b0: u8, b1: u8, b2: u8, b3: u8) -> u32 {
    ((b0 as u32) | ((b1 as u32) << 8u32) | ((b2 as u32) << 16u32) | ((b3 as u32) << 24u32)) as u32
}

/// The `u32` stored at byte offset `off` of `b`.
pub open spec fn u32_at(b: Seq<u8>, off: int) -> u32 {
    le_u32(b[off], b[off + 1], b[off + 2], b[off + 3])
}

/// The four little-endian bytes of `v`.
pub open spec fn u32_bytes(v: u32) -> Seq<u8> {
    seq![
        (v & 0xffu32) as u8,
        ((v >> 8u32) & 0xffu32) as u8,
        ((v >> 16u32) & 0xffu32) as u8,
        ((v >> 24u32) & 0xffu32) as u8,
    ]
}

pub proof fn lemma_u32_bytes_round_trip(v: u32)
    ensures
        u32_bytes(v).len() == 4,
        le_u32(u32_bytes(v)[0], u32_bytes(v)[1], u32_bytes(v)[2], u32_bytes(v)[3]) == v,
{
    let b0 = (v & 0xffu32) as u8;
    let b1 = ((v >> 8u32) & 0xffu32) as u8;
    let b2 = ((v >> 16u32) & 0xffu32) as u8;
    let b3 = ((v >> 24u32) & 0xffu32) as u8;
    assert(((b0 as u32) | ((b1 as u32) << 8u32) | ((b2 as u32) << 16u32) | ((b3 as u32) << 24u32))
        == v) by (bit_vector)
        requires
            b0 == (v & 0xffu32) as u8,
            b1 == ((v >> 8u32) & 0xffu32) as u8,
            b2 == ((v >> 16u32) & 0xffu32) as u8,
            b3 == ((v >> 24u32) & 0xffu32) as u8,
    ;
}


/// A Unicode scalar value: what a `char` can hold.
pub open spec fn is_scalar_value(v: u32) -> bool {
    v < 0xD800 || (0xE000 <= v && v < 0x110000)
}

/// One glyph as the encoder receives it: its metrics and its coverage, row-major, each value
/// held as the bit pattern of an IEEE-754 single.
#[derive(Clone, Debug)]
pub struct GlyphSource {
    pub bitmap: GlyphBitmap,
    pub coverage: Vec<u32>,
}

/// The coverage array has one value per pixel of the glyph's box.
pub open spec fn source_valid(g: GlyphSource) -> bool {
    g.coverage@.len() == g.bitmap.pixel_count()
}

pub open spec fn header_bytes(h: GlyphBitmapsHeader) -> Seq<u8> {
    seq![(h.num_glyphs & 0xffu16) as u8, ((h.num_glyphs >> 8u16) & 0xffu16) as u8, 0u8, 0u8]
        + u32_bytes(h.ascent) + u32_bytes(h.descent) + u32_bytes(h.line_gap)
}

pub open spec fn record_bytes(g: GlyphBitmap) -> Seq<u8> {
    u32_bytes(g.glyph as u32) + u32_bytes(g.width_in_pixels) + u32_bytes(g.height_in_pixels)
        + u32_bytes(g.advance_width) + u32_bytes(g.left_side_bearing)
}

pub open spec fn coverage_bytes(cov: Seq<u32>) -> Seq<u8>
    decreases cov.len(),
{
    if cov.len() == 0 {
        seq![]
    } else {
        coverage_bytes(cov.drop_last()) + u32_bytes(cov.last())
    }
}

pub open spec fn glyph_bytes(g: GlyphSource) -> Seq<u8> {
    record_bytes(g.bitmap) + coverage_bytes(g.coverage@)
}

pub open spec fn glyphs_bytes(gs: Seq<GlyphSource>) -> Seq<u8>
    decreases gs.len(),
{
    if gs.len() == 0 {
        seq![]
    } else {
        glyphs_bytes(gs.drop_last()) + glyph_bytes(gs.last())
    }
}

/// The blob that encodes header `h` followed by the glyphs `gs`, in order.
pub open spec fn encoding(h: GlyphBitmapsHeader, gs: Seq<GlyphSource>) -> Seq<u8> {
    header_bytes(h) + glyphs_bytes(gs)
}

/// The header read back from the first bytes of a blob.
pub open spec fn blob_header(b: Seq<u8>) -> GlyphBitmapsHeader {
    GlyphBitmapsHeader {
        num_glyphs: le_u16(b[0], b[1]),
        ascent: u32_at(b, 4),
        descent: u32_at(b, 8),
        line_gap: u32_at(b, 12),
    }
}

/// Byte offset of the `i`-th glyph record: each record starts where the previous one's
/// coverage ends.
pub open spec fn record_offset(b: Seq<u8>, i: nat) -> int
    decreases i,
{
    if i == 0 {
        HEADER_SIZE as int
    } else {
        let p = record_offset(b, (i - 1) as nat);
        p + RECORD_SIZE + 4 * (u32_at(b, p + 4) * u32_at(b, p + 8))
    }
}

/// `g` holds the fields of the record at offset `p`.
pub open spec fn bitmap_matches(g: GlyphBitmap, b: Seq<u8>, p: int) -> bool {
    &&& g.glyph as u32 == u32_at(b, p)
    &&& g.width_in_pixels == u32_at(b, p + 4)
    &&& g.height_in_pixels == u32_at(b, p + 8)
    &&& g.advance_width == u32_at(b, p + 12)
    &&& g.left_side_bearing == u32_at(b, p + 16)
}

/// The first problem met when the first `i` records are read in order, if any.
pub open spec fn scan_error(b: Seq<u8>, i: nat) -> Option<GlyphBitmapIterError>
    decreases i,
{
    if i == 0 {
        None
    } else {
        match scan_error(b, (i - 1) as nat) {
            Some(e) => Some(e),
            None => {
                let p = record_offset(b, (i - 1) as nat);
                if p + RECORD_SIZE > b.len() || record_offset(b, i) > b.len() {
                    Some(GlyphBitmapIterError::Truncated)
                } else if !is_scalar_value(u32_at(b, p)) {
                    Some(GlyphBitmapIterError::InvalidCodepoint)
                } else {
                    None
                }
            },
        }
    }
}

/// Once reading meets a problem, reading further records reports the same one.
pub proof fn lemma_scan_error_sticky(b: Seq<u8>, i: nat, j: nat)
    requires
        i <= j,
        scan_error(b, i) is Some,
    ensures
        scan_error(b, j) == scan_error(b, i),
    decreases j - i,
{
    if i < j {
        lemma_scan_error_sticky(b, i, (j - 1) as nat);
    }
}

/// In a blob read without problems, every record and its coverage lie inside the blob.
pub proof fn lemma_scan_ok(b: Seq<u8>, n: nat, i: nat)
    requires
        scan_error(b, n) is None,
        i < n,
    ensures
        record_offset(b, i) + RECORD_SIZE <= record_offset(b, i + 1) <= b.len(),
        is_scalar_value(u32_at(b, record_offset(b, i))),
{
    if scan_error(b, i + 1) is Some {
        lemma_scan_error_sticky(b, i + 1, n);
    }
}

/// Why the blob `b` (aligned) is not an atlas, or `None` if it is one.
pub open spec fn blob_error(b: Seq<u8>) -> Option<GlyphBitmapIterError> {
    if b.len() < HEADER_SIZE {
        Some(GlyphBitmapIterError::Truncated)
    } else {
        scan_error(b, blob_header(b).num_glyphs as nat)
    }
}


proof fn lemma_u32_at(s: Seq<u8>, p: int, v: u32)
    requires
        0 <= p,
        p + 4 <= s.len(),
        forall|j: int| 0 <= j < 4 ==> s[p + j] == #[trigger] u32_bytes(v)[j],
    ensures
        u32_at(s, p) == v,
{
    lemma_u32_bytes_round_trip(v);
    assert(s[p] == u32_bytes(v)[0]);
    assert(s[p + 1] == u32_bytes(v)[1]);
    assert(s[p + 2] == u32_bytes(v)[2]);
    assert(s[p + 3] == u32_bytes(v)[3]);
}

proof fn lemma_coverage_bytes(cov: Seq<u32>)
    ensures
        coverage_bytes(cov).len() == 4 * cov.len(),
        forall|k: int, j: int|
            0 <= k < cov.len() && 0 <= j < 4 ==> coverage_bytes(cov)[4 * k + j] == #[trigger] u32_bytes(
                cov[k],
            )[j],
    decreases cov.len(),
{
    if cov.len() > 0 {
        let init = cov.drop_last();
        lemma_coverage_bytes(init);
        assert forall|k: int, j: int| 0 <= k < cov.len() && 0 <= j < 4 implies coverage_bytes(
            cov,
        )[4 * k + j] == #[trigger] u32_bytes(cov[k])[j] by {
            if k < cov.len() - 1 {
                assert(cov[k] == init[k]);
            }
        }
    }
}

proof fn lemma_glyph_bytes(g: GlyphSource)
    requires
        source_valid(g),
    ensures
        glyph_bytes(g).len() == RECORD_SIZE + 4 * g.bitmap.pixel_count(),
        forall|j: int| 0 <= j < 4 ==> glyph_bytes(g)[j] == #[trigger] u32_bytes(g.bitmap.glyph as u32)[j],
        forall|j: int|
            0 <= j < 4 ==> glyph_bytes(g)[4 + j] == #[trigger] u32_bytes(g.bitmap.width_in_pixels)[j],
        forall|j: int|
            0 <= j < 4 ==> glyph_bytes(g)[8 + j] == #[trigger] u32_bytes(g.bitmap.height_in_pixels)[j],
        forall|j: int|
            0 <= j < 4 ==> glyph_bytes(g)[12 + j] == #[trigger] u32_bytes(g.bitmap.advance_width)[j],
        forall|j: int|
            0 <= j < 4 ==> glyph_bytes(g)[16 + j] == #[trigger] u32_bytes(g.bitmap.left_side_bearing)[j],
        forall|k: int, j: int|
            0 <= k < g.coverage@.len() && 0 <= j < 4 ==> glyph_bytes(g)[RECORD_SIZE + 4 * k + j]
                == #[trigger] u32_bytes(g.coverage@[k])[j],
{
    lemma_coverage_bytes(g.coverage@);
}

proof fn lemma_glyphs_prefix(gs: Seq<GlyphSource>, i: int)
    requires
        0 <= i <= gs.len(),
    ensures
        glyphs_bytes(gs.take(i)).len() <= glyphs_bytes(gs).len(),
        glyphs_bytes(gs) =~= glyphs_bytes(gs.take(i)) + glyphs_bytes(gs).subrange(
            glyphs_bytes(gs.take(i)).len() as int,
            glyphs_bytes(gs).len() as int,
        ),
    decreases gs.len(),
{
    if i == gs.len() {
        assert(gs.take(i) =~= gs);
    } else {
        let init = gs.drop_last();
        lemma_glyphs_prefix(init, i);
        assert(init.take(i) =~= gs.take(i));
    }
}

/// Start of the `i`-th glyph inside `encoding(h, gs)`.
pub open spec fn glyph_start(gs: Seq<GlyphSource>, i: int) -> int {
    HEADER_SIZE + glyphs_bytes(gs.take(i)).len()
}

proof fn lemma_glyph_in_encoding(h: GlyphBitmapsHeader, gs: Seq<GlyphSource>, i: int)
    requires
        0 <= i < gs.len(),
    ensures
        glyph_start(gs, i + 1) == glyph_start(gs, i) + glyph_bytes(gs[i]).len(),
        glyph_start(gs, i + 1) <= encoding(h, gs).len(),
        forall|j: int|
            0 <= j < glyph_bytes(gs[i]).len() ==> encoding(h, gs)[glyph_start(gs, i) + j]
                == #[trigger] glyph_bytes(gs[i])[j],
{
    let t = gs.take(i + 1);
    assert(t.drop_last() =~= gs.take(i));
    assert(t.last() == gs[i]);
    lemma_glyphs_prefix(gs, i + 1);
    let e = encoding(h, gs);
    assert(header_bytes(h).len() == HEADER_SIZE);
    assert forall|j: int| 0 <= j < glyph_bytes(gs[i]).len() implies e[glyph_start(gs, i) + j]
        == #[trigger] glyph_bytes(gs[i])[j] by {
        let q = glyphs_bytes(gs.take(i)).len() + j;
        assert(glyphs_bytes(t)[q] == glyph_bytes(gs[i])[j]);
        assert(glyphs_bytes(gs)[q] == glyphs_bytes(t)[q]);
        assert(e[HEADER_SIZE + q] == glyphs_bytes(gs)[q]);
    }
}

/// All glyph sources hold one coverage value per pixel.
pub open spec fn sources_valid(gs: Seq<GlyphSource>) -> bool {
    forall|i: int| 0 <= i < gs.len() ==> source_valid(#[trigger] gs[i])
}

proof fn lemma_record_offsets(h: GlyphBitmapsHeader, gs: Seq<GlyphSource>, i: nat)
    requires
        sources_valid(gs),
        i <= gs.len(),
    ensures
        record_offset(encoding(h, gs), i) == glyph_start(gs, i as int),
        scan_error(encoding(h, gs), i) == None::<GlyphBitmapIterError>,
    decreases i,
{
    let e = encoding(h, gs);
    if i == 0 {
        assert(gs.take(0) =~= Seq::<GlyphSource>::empty());
    } else {
        let k = (i - 1) as int;
        lemma_record_offsets(h, gs, (i - 1) as nat);
        lemma_glyph_in_encoding(h, gs, k);
        lemma_glyph_bytes(gs[k]);
        let p = glyph_start(gs, k);
        let g = gs[k].bitmap;
        lemma_u32_at(e, p, g.glyph as u32);
        lemma_u32_at(e, p + 4, g.width_in_pixels);
        lemma_u32_at(e, p + 8, g.height_in_pixels);
    }
}

/// Encoding a header and valid glyphs, then reading the blob back, gives the same header,
/// every record with the same fields, and every coverage value bit for bit.
pub proof fn lemma_encoding_round_trip(h: GlyphBitmapsHeader, gs: Seq<GlyphSource>)
    requires
        sources_valid(gs),
        h.num_glyphs == gs.len(),
    ensures
        blob_error(encoding(h, gs)) == None::<GlyphBitmapIterError>,
        blob_header(encoding(h, gs)) == h,
        forall|i: int|
            0 <= i < gs.len() ==> bitmap_matches(
                #[trigger] gs[i].bitmap,
                encoding(h, gs),
                record_offset(encoding(h, gs), i as nat),
            ),
        forall|i: int, k: int|
            0 <= i < gs.len() && 0 <= k < gs[i].coverage@.len() ==> u32_at(
                encoding(h, gs),
                record_offset(encoding(h, gs), i as nat) + RECORD_SIZE + 4 * k,
            ) == #[trigger] gs[i].coverage@[k],
{
    let e = encoding(h, gs);
    let hb = header_bytes(h);
    assert(e.len() >= HEADER_SIZE);
    assert(e[0] == hb[0] && e[1] == hb[1]);
    let n = h.num_glyphs;
    assert(le_u16((n & 0xffu16) as u8, ((n >> 8u16) & 0xffu16) as u8) == n) by (bit_vector);
    assert forall|j: int| 0 <= j < 4 implies e[4 + j] == #[trigger] u32_bytes(h.ascent)[j] by {
        assert(e[4 + j] == hb[4 + j]);
    }
    assert forall|j: int| 0 <= j < 4 implies e[8 + j] == #[trigger] u32_bytes(h.descent)[j] by {
        assert(e[8 + j] == hb[8 + j]);
    }
    assert forall|j: int| 0 <= j < 4 implies e[12 + j] == #[trigger] u32_bytes(h.line_gap)[j] by {
        assert(e[12 + j] == hb[12 + j]);
    }
    lemma_u32_at(e, 4, h.ascent);
    lemma_u32_at(e, 8, h.descent);
    lemma_u32_at(e, 12, h.line_gap);
    lemma_record_offsets(h, gs, gs.len());
    assert forall|i: int| 0 <= i < gs.len() implies bitmap_matches(
        #[trigger] gs[i].bitmap,
        e,
        record_offset(e, i as nat),
    ) && (forall|k: int|
        0 <= k < gs[i].coverage@.len() ==> u32_at(e, record_offset(e, i as nat) + RECORD_SIZE + 4 * k)
            == #[trigger] gs[i].coverage@[k]) by {
        lemma_record_offsets(h, gs, i as nat);
        lemma_glyph_in_encoding(h, gs, i);
        lemma_glyph_bytes(gs[i]);
        let p = glyph_start(gs, i);
        let g = gs[i].bitmap;
        lemma_u32_at(e, p, g.glyph as u32);
        lemma_u32_at(e, p + 4, g.width_in_pixels);
        lemma_u32_at(e, p + 8, g.height_in_pixels);
        lemma_u32_at(e, p + 12, g.advance_width);
        lemma_u32_at(e, p + 16, g.left_side_bearing);
        assert forall|k: int| 0 <= k < gs[i].coverage@.len() implies u32_at(
            e,
            p + RECORD_SIZE + 4 * k,
        ) == #[trigger] gs[i].coverage@[k] by {
            assert forall|j: int| 0 <= j < 4 implies e[p + RECORD_SIZE + 4 * k + j]
                == #[trigger] u32_bytes(gs[i].coverage@[k])[j] by {
                assert(e[p + (RECORD_SIZE + 4 * k + j)] == glyph_bytes(gs[i])[RECORD_SIZE + 4 * k + j]);
            }
            lemma_u32_at(e, p + RECORD_SIZE + 4 * k, gs[i].coverage@[k]);
        }
    }
}


fn push_u32(out: &mut Vec<u8>, v: u32)
    ensures
        final(out)@ == old(out)@ + u32_bytes(v),
{
    out.push((v & 0xff) as u8);
    out.push(((v >> 8) & 0xff) as u8);
    out.push(((v >> 16) & 0xff) as u8);
    out.push(((v >> 24) & 0xff) as u8);
    assert(final(out)@ =~= old(out)@ + u32_bytes(v));
}

/// Serialises a header and its glyphs into the atlas format.
pub fn encode_glyph_bitmaps(header: &GlyphBitmapsHeader, glyphs: &Vec<GlyphSource>) -> (r: Vec<u8>)
    ensures
        r@ == encoding(*header, glyphs@),
{
    let mut out: Vec<u8> = Vec::new();
    out.push((header.num_glyphs & 0xff) as u8);
    out.push(((header.num_glyphs >> 8) & 0xff) as u8);
    out.push(0u8);
    out.push(0u8);
    push_u32(&mut out, header.ascent);
    push_u32(&mut out, header.descent);
    push_u32(&mut out, header.line_gap);
    assert(out@ =~= header_bytes(*header));
    let ghost gs = glyphs@;
    assert(gs.take(0) =~= Seq::<GlyphSource>::empty());
    let mut i: usize = 0;
    while i < glyphs.len()
        invariant
            gs == glyphs@,
            i <= gs.len(),
            out@ == header_bytes(*header) + glyphs_bytes(gs.take(i as int)),
        decreases gs.len() - i,
    {
        let g = &glyphs[i];
        let ghost before = out@;
        push_u32(&mut out, g.bitmap.glyph as u32);
        push_u32(&mut out, g.bitmap.width_in_pixels);
        push_u32(&mut out, g.bitmap.height_in_pixels);
        push_u32(&mut out, g.bitmap.advance_width);
        push_u32(&mut out, g.bitmap.left_side_bearing);
        assert(out@ =~= before + record_bytes(g.bitmap));
        let ghost cov = g.coverage@;
        assert(cov.take(0) =~= Seq::<u32>::empty());
        let mut k: usize = 0;
        while k < g.coverage.len()
            invariant
                cov == g.coverage@,
                k <= cov.len(),
                out@ == before + record_bytes(g.bitmap) + coverage_bytes(cov.take(k as int)),
            decreases cov.len() - k,
        {
            push_u32(&mut out, g.coverage[k]);
            assert(cov.take(k + 1).drop_last() =~= cov.take(k as int));
            assert(out@ =~= before + record_bytes(g.bitmap) + coverage_bytes(cov.take(k + 1)));
            k = k + 1;
        }
        assert(cov.take(k as int) =~= cov);
        assert(gs.take(i + 1).drop_last() =~= gs.take(i as int));
        assert(out@ =~= header_bytes(*header) + glyphs_bytes(gs.take(i + 1)));
        i = i + 1;
    }
    assert(gs.take(i as int) =~= gs);
    out
}

} // verus!
