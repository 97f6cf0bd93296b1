//! The decoded atlas: a borrowed view of the blob plus a by-codepoint index.
use vstd::prelude::*;
use crate::codec::{
    encoding, lemma_encoding_round_trip, sources_valid, GlyphSource,    lemma_scan_ok,    lemma_scan_error_sticky,    blob_error, blob_header, bitmap_matches, is_scalar_value, le_u16, le_u32, record_offset,
    scan_error, u32_at, GlyphBitmap, GlyphBitmapIterError, GlyphBitmapsHeader, HEADER_SIZE,
    RECORD_SIZE,
};

verus! {

/// Codepoints below this bound are found through a direct table.
pub const DENSE_LIMIT: usize = 256;

/// Relies on `char::from_u32`: `Some` exactly for Unicode scalar values, holding that value.
#[verifier::external_body]
fn char_from_u32(v: u32) -> (r: Option<char>)
    ensures
        r matches Some(c) ==> c as u32 == v,
        r is None <==> !is_scalar_value(v),
{
    char::from_u32(v)
}

/// Relies on `<[u8]>::as_ptr`: the blob's base address. Nothing is known of its value.
#[verifier::external_body]
fn base_address(bytes: &[u8]) -> (r: usize) {
    bytes.as_ptr() as usize
}

/// The first index of a glyph with codepoint `c`.
pub open spec fn find_glyph(gs: Seq<GlyphBitmap>, c: u32) -> Option<int>
    decreases gs.len(),
{
    if gs.len() == 0 {
        None
    } else {
        match find_glyph(gs.drop_last(), c) {
            Some(k) => Some(k),
            None => if gs.last().glyph as u32 == c {
                Some(gs.len() - 1)
            } else {
                None
            },
        }
    }
}

pub proof fn lemma_find_glyph(gs: Seq<GlyphBitmap>, c: u32)
    ensures
        find_glyph(gs, c) is None <==> (forall|k: int| 0 <= k < gs.len() ==> #[trigger] gs[k].glyph as u32 != c),
        find_glyph(gs, c) matches Some(k) ==> {
            &&& 0 <= k < gs.len()
            &&& gs[k].glyph as u32 == c
            &&& forall|j: int| 0 <= j < k ==> #[trigger] gs[j].glyph as u32 != c
        },
    decreases gs.len(),
{
    if gs.len() > 0 {
        let init = gs.drop_last();
        lemma_find_glyph(init, c);
        assert forall|k: int| 0 <= k < init.len() implies init[k] == #[trigger] gs[k] by {}
        if find_glyph(gs, c) is None {
            assert forall|k: int| 0 <= k < gs.len() implies #[trigger] gs[k].glyph as u32 != c by {
                if k < init.len() {
                    assert(init[k] == gs[k]);
                }
            }
        }
    }
}

/// One decoded record: its metrics and where its coverage starts in the blob.
#[derive(Clone, Copy)]
pub(crate) struct GlyphEntry {
    pub(crate) bitmap: GlyphBitmap,
    pub(crate) pixels_offset: usize,
}

pub(crate) open spec fn entry_glyphs(s: Seq<GlyphEntry>) -> Seq<GlyphBitmap> {
    s.map_values(|e: GlyphEntry| e.bitmap)
}

/// A glyph found in the atlas: its metrics and its coverage bytes, borrowed from the blob
/// (four little-endian bytes per pixel, row-major).
#[derive(Clone, Copy)]
pub struct GlyphData<'a> {
    pub header: GlyphBitmap,
    pub pixels: &'a [u8],
}

impl<'a> GlyphData<'a> {
    /// The coverage bits of every pixel are present.
    pub open spec fn wf(&self) -> bool {
        self.pixels@.len() == 4 * self.header.pixel_count()
    }

    /// The coverage bits of pixel `i` (row-major).
    pub open spec fn coverage_at(&self, i: int) -> u32 {
        u32_at(self.pixels@, 4 * i)
    }

    pub fn coverage(&self, i: usize) -> (r: u32)
        requires
            4 * i + 4 <= self.pixels@.len(),
        ensures
            r == self.coverage_at(i as int),
    {
        let n = self.pixels.len();
        assert(4 * i + 4 <= n);
        let p = 4 * i;
        (self.pixels[p] as u32) | ((self.pixels[p + 1] as u32) << 8) | ((self.pixels[p + 2] as u32)
            << 16) | ((self.pixels[p + 3] as u32) << 24)
    }
}

/// A decoded atlas borrowing its blob.
#[derive(Clone)]
pub struct GlyphBitmapIterator<'a> {
    glyph_bitmaps_bytes: &'a [u8],
    header: GlyphBitmapsHeader,
    entries: Vec<GlyphEntry>,
    dense: Vec<Option<usize>>,
}

impl<'a> GlyphBitmapIterator<'a> {
    /// The blob the atlas was decoded from.
    pub closed spec fn bytes(&self) -> Seq<u8> {
        self.glyph_bitmaps_bytes@
    }

    /// The decoded records, in blob order.
    pub closed spec fn glyphs(&self) -> Seq<GlyphBitmap> {
        entry_glyphs(self.entries@)
    }

    /// The coverage bytes of record `k`.
    pub closed spec fn glyph_pixels(&self, k: int) -> Seq<u8> {
        let off = self.entries@[k].pixels_offset as int;
        self.bytes().subrange(off, off + 4 * self.glyphs()[k].pixel_count())
    }

    pub closed spec fn header_spec(&self) -> GlyphBitmapsHeader {
        self.header
    }

    pub closed spec fn index_inv(&self) -> bool {
        &&& self.entries@.len() == self.glyphs().len()
        &&& forall|k: int|
            0 <= k < self.entries@.len() ==> (#[trigger] self.entries@[k]).pixels_offset
                == record_offset(self.bytes(), k as nat) + RECORD_SIZE
        &&& self.dense@.len() <= DENSE_LIMIT
        &&& forall|c: int|
            0 <= c < self.dense@.len() ==> match #[trigger] self.dense@[c] {
                Some(k) => find_glyph(self.glyphs(), c as u32) == Some(k as int),
                None => find_glyph(self.glyphs(), c as u32) is None,
            }
        &&& forall|c: u32|
            self.dense@.len() <= c < DENSE_LIMIT ==> #[trigger] find_glyph(self.glyphs(), c) is None
    }

    /// The atlas is the decoding of its blob: the header is the blob's, and record `k`
    /// holds the fields stored at its offset and the coverage bytes that follow it.
    pub open spec fn wf(&self) -> bool {
        &&& self.index_inv()
        &&& blob_error(self.bytes()) is None
        &&& self.header_spec() == blob_header(self.bytes())
        &&& self.glyphs().len() == self.header_spec().num_glyphs
        &&& forall|k: int|
            0 <= k < self.glyphs().len() ==> bitmap_matches(
                #[trigger] self.glyphs()[k],
                self.bytes(),
                record_offset(self.bytes(), k as nat),
            )
        &&& forall|k: int|
            0 <= k < self.glyphs().len() ==> #[trigger] self.glyph_pixels(k) == self.bytes().subrange(
                record_offset(self.bytes(), k as nat) + RECORD_SIZE,
                record_offset(self.bytes(), (k + 1) as nat),
            )
    }
}


fn read_u16(b: &[u8], off: usize) -> (r: u16)
    requires
        off + 2 <= b@.len(),
    ensures
        r == le_u16(b@[off as int], b@[off + 1]),
{
    (b[off] as u16) | ((b[off + 1] as u16) << 8)
}

fn read_u32(b: &[u8], off: usize) -> (r: u32)
    requires
        off + 4 <= b@.len(),
    ensures
        r == u32_at(b@, off as int),
{
    (b[off] as u32) | ((b[off + 1] as u32) << 8) | ((b[off + 2] as u32) << 16) | ((b[off + 3] as u32)
        << 24)
}

proof fn lemma_find_glyph_push(gs: Seq<GlyphBitmap>, g: GlyphBitmap, c: u32)
    ensures
        find_glyph(gs.push(g), c) == match find_glyph(gs, c) {
            Some(k) => Some(k),
            None => if g.glyph as u32 == c {
                Some(gs.len() as int)
            } else {
                None
            },
        },
{
    assert(gs.push(g).drop_last() =~= gs);
}

/// Reads the record at `off`, checking that it and its coverage fit in the blob and that its
/// codepoint is a scalar value.
fn read_record(bytes: &[u8], off: usize) -> (r: Result<(GlyphBitmap, usize), GlyphBitmapIterError>)
    requires
        off <= bytes@.len(),
    ensures
        ({
            let b = bytes@;
            let next = off + RECORD_SIZE + 4 * (u32_at(b, off + 4) * u32_at(b, off + 8));
            if off + RECORD_SIZE > b.len() || next > b.len() {
                r == Err::<(GlyphBitmap, usize), _>(GlyphBitmapIterError::Truncated)
            } else if !is_scalar_value(u32_at(b, off as int)) {
                r == Err::<(GlyphBitmap, usize), _>(GlyphBitmapIterError::InvalidCodepoint)
            } else {
                r matches Ok((g, n)) && n == next && bitmap_matches(g, b, off as int)
            }
        }),
{
    let len = bytes.len();
    if len - off < RECORD_SIZE {
        return Err(GlyphBitmapIterError::Truncated);
    }
    let cp = read_u32(bytes, off);
    let w = read_u32(bytes, off + 4);
    let h = read_u32(bytes, off + 8);
    let advance = read_u32(bytes, off + 12);
    let bearing = read_u32(bytes, off + 16);
    let rem = len - off - RECORD_SIZE;
    assert((w as u64) * (h as u64) <= u64::MAX) by (nonlinear_arith)
        requires
            w <= u32::MAX,
            h <= u32::MAX,
    ;
    let wh: u64 = w as u64 * h as u64;
    if wh > (rem / 4) as u64 {
        return Err(GlyphBitmapIterError::Truncated);
    }
    let c = match char_from_u32(cp) {
        Some(c) => c,
        None => {
            return Err(GlyphBitmapIterError::InvalidCodepoint);
        },
    };
    let bitmap = GlyphBitmap {
        glyph: c,
        width_in_pixels: w,
        height_in_pixels: h,
        advance_width: advance,
        left_side_bearing: bearing,
    };
    Ok((bitmap, off + RECORD_SIZE + 4 * (wh as usize)))
}

impl<'a> GlyphBitmapIterator<'a> {
    /// Opens `glyph_bitmaps_bytes` as an atlas. Fails with `AdressUnaligned` when the blob does
    /// not start on a 4-byte boundary; otherwise as `new_at_address` says.
    pub fn new(glyph_bitmaps_bytes: &'a [u8]) -> (r: Result<Self, GlyphBitmapIterError>)
        ensures
            r matches Ok(a) ==> a.wf() && a.bytes() == glyph_bitmaps_bytes@,
            r matches Err(e) ==> e == GlyphBitmapIterError::AdressUnaligned || Some(e) == blob_error(
                glyph_bitmaps_bytes@,
            ),
            blob_error(glyph_bitmaps_bytes@) is Some ==> r is Err,
    {
        let address = base_address(glyph_bitmaps_bytes);
        Self::new_at_address(glyph_bitmaps_bytes, address)
    }

    /// Opens the blob `bytes`, which starts at `address`, in one forward pass over its records.
    pub fn new_at_address(bytes: &'a [u8], address: usize) -> (r: Result<Self, GlyphBitmapIterError>)
        ensures
            address % 4 != 0 ==> r == Err::<Self, _>(GlyphBitmapIterError::AdressUnaligned),
            address % 4 == 0 ==> match blob_error(bytes@) {
                Some(e) => r == Err::<Self, _>(e),
                None => r matches Ok(a) && a.wf() && a.bytes() == bytes@,
            },
    {
        if address % 4 != 0 {
            return Err(GlyphBitmapIterError::AdressUnaligned);
        }
        let ghost b = bytes@;
        let len = bytes.len();
        if len < HEADER_SIZE {
            return Err(GlyphBitmapIterError::Truncated);
        }
        let header = GlyphBitmapsHeader {
            num_glyphs: read_u16(bytes, 0),
            ascent: read_u32(bytes, 4),
            descent: read_u32(bytes, 8),
            line_gap: read_u32(bytes, 12),
        };
        let n = header.num_glyphs as usize;
        let mut entries: Vec<GlyphEntry> = Vec::new();
        let mut dense: Vec<Option<usize>> = Vec::new();
        let mut off: usize = HEADER_SIZE;
        let mut i: usize = 0;
        while i < n
            invariant
                address % 4 == 0,
                b == bytes@,
                len == b.len(),
                header == blob_header(b),
                n == header.num_glyphs,
                i <= n,
                off == record_offset(b, i as nat),
                off <= len,
                scan_error(b, i as nat) is None,
                entries@.len() == i,
                forall|k: int|
                    0 <= k < i ==> bitmap_matches(
                        (#[trigger] entries@[k]).bitmap,
                        b,
                        record_offset(b, k as nat),
                    ) && entries@[k].pixels_offset == record_offset(b, k as nat) + RECORD_SIZE,
                forall|k: int|
                    0 <= k < i ==> record_offset(b, k as nat) + RECORD_SIZE <= #[trigger] record_offset(
                        b,
                        (k + 1) as nat,
                    ) <= off,
                dense@.len() <= DENSE_LIMIT,
                forall|c: int|
                    0 <= c < dense@.len() ==> match #[trigger] dense@[c] {
                        Some(k) => find_glyph(entry_glyphs(entries@), c as u32)
                            == Some(k as int),
                        None => find_glyph(entry_glyphs(entries@), c as u32) is None,
                    },
                forall|c: u32|
                    dense@.len() <= c < DENSE_LIMIT ==> #[trigger] find_glyph(
                        entry_glyphs(entries@),
                        c,
                    ) is None,
            decreases n - i,
        {
            let (bitmap, next) = match read_record(bytes, off) {
                Ok(x) => x,
                Err(e) => {
                    proof {
                        lemma_scan_error_sticky(b, (i + 1) as nat, n as nat);
                    }
                    return Err(e);
                },
            };
            let cp = bitmap.glyph as u32;
            let ghost old_gs = entry_glyphs(entries@);
            let ghost old_entries = entries@;
            let entry = GlyphEntry { bitmap, pixels_offset: off + RECORD_SIZE };
            entries.push(entry);
            let ghost new_gs = entry_glyphs(entries@);
            assert(entries@ == old_entries.push(entry));
            assert(new_gs.len() == old_gs.len() + 1);
            assert forall|k: int| 0 <= k < new_gs.len() implies new_gs[k] == #[trigger] old_gs.push(
                bitmap,
            )[k] by {
                if k < old_gs.len() {
                    assert(entries@[k] == old_entries[k]);
                }
            }
            assert(new_gs =~= old_gs.push(bitmap));
            proof {
                assert forall|c2: u32| #[trigger] find_glyph(new_gs, c2) == match find_glyph(old_gs, c2) {
                    Some(k) => Some(k),
                    None => if bitmap.glyph as u32 == c2 {
                        Some(old_gs.len() as int)
                    } else {
                        None
                    },
                } by {
                    lemma_find_glyph_push(old_gs, bitmap, c2);
                }
            }
            let cpu = cp as usize;
            if cpu < DENSE_LIMIT {
                while dense.len() <= cpu
                    invariant
                        cpu < DENSE_LIMIT,
                        dense@.len() <= DENSE_LIMIT,
                        forall|c2: int|
                            0 <= c2 < dense@.len() ==> match #[trigger] dense@[c2] {
                                Some(k) => find_glyph(old_gs, c2 as u32) == Some(k as int),
                                None => find_glyph(old_gs, c2 as u32) is None,
                            },
                        forall|c2: u32|
                            dense@.len() <= c2 < DENSE_LIMIT ==> #[trigger] find_glyph(old_gs, c2) is None,
                    decreases cpu + 1 - dense@.len(),
                {
                    let ghost d = dense@.len();
                    dense.push(None);
                    assert(find_glyph(old_gs, d as u32) is None);
                }
                if dense[cpu].is_none() {
                    dense.set(cpu, Some(i));
                }
            }
            off = next;
            i = i + 1;
        }
        let atlas = GlyphBitmapIterator { glyph_bitmaps_bytes: bytes, header, entries, dense };
        assert forall|k: int| 0 <= k < atlas.glyphs().len() implies #[trigger] atlas.glyph_pixels(k)
            == b.subrange(record_offset(b, k as nat) + RECORD_SIZE, record_offset(b, (k + 1) as nat)) by {
            assert(atlas.glyphs()[k] == entries@[k].bitmap);
        }
        Ok(atlas)
    }
}


impl<'a> GlyphBitmapIterator<'a> {
    /// The atlas header.
    pub fn header(&self) -> (r: &GlyphBitmapsHeader)
        ensures
            *r == self.header_spec(),
    {
        &self.header
    }

    /// The glyph of `glyph_char_code`: the first record with that codepoint, or `None` when the
    /// atlas has none. Codepoints below `DENSE_LIMIT` are answered from the direct table.
    pub fn glyph_data(&self, glyph_char_code: char) -> (r: Option<GlyphData<'a>>)
        requires
            self.wf(),
        ensures
            match find_glyph(self.glyphs(), glyph_char_code as u32) {
                None => r is None,
                Some(k) => r matches Some(d) && d.header == self.glyphs()[k] && d.pixels@
                    == self.glyph_pixels(k) && d.wf(),
            },
    {
        let c = glyph_char_code as u32;
        let cu = c as usize;
        if cu < self.dense.len() {
            match self.dense[cu] {
                Some(k) => {
                    proof {
                        lemma_find_glyph(self.glyphs(), c);
                    }
                    Some(self.data_of(k))
                },
                None => None,
            }
        } else if cu < DENSE_LIMIT {
            None
        } else {
            let mut k: usize = 0;
            while k < self.entries.len()
                invariant
                    self.wf(),
                    c == glyph_char_code as u32,
                    k <= self.glyphs().len(),
                    forall|j: int| 0 <= j < k ==> #[trigger] self.glyphs()[j].glyph as u32 != c,
                decreases self.glyphs().len() - k,
            {
                assert(self.glyphs()[k as int] == self.entries@[k as int].bitmap);
                if self.entries[k].bitmap.glyph as u32 == c {
                    proof {
                        lemma_find_glyph(self.glyphs(), c);
                        if let Some(f) = find_glyph(self.glyphs(), c) {
                            assert(f == k);
                        }
                    }
                    return Some(self.data_of(k));
                }
                k = k + 1;
            }
            proof {
                lemma_find_glyph(self.glyphs(), c);
            }
            None
        }
    }

    fn data_of(&self, k: usize) -> (r: GlyphData<'a>)
        requires
            self.wf(),
            k < self.glyphs().len(),
        ensures
            r.header == self.glyphs()[k as int],
            r.pixels@ == self.glyph_pixels(k as int),
            r.wf(),
    {
        let e = self.entries[k];
        proof {
            lemma_scan_ok(self.bytes(), self.header.num_glyphs as nat, k as nat);
        }
        let ghost b = self.bytes();
        let ghost p = record_offset(b, k as nat);
        assert(self.glyphs()[k as int] == e.bitmap);
        assert(bitmap_matches(e.bitmap, b, p));
        assert(record_offset(b, (k + 1) as nat) == p + RECORD_SIZE + 4 * (u32_at(b, p + 4) * u32_at(
            b,
            p + 8,
        )));
        let w = e.bitmap.width_in_pixels;
        let h = e.bitmap.height_in_pixels;
        assert((w as u64) * (h as u64) <= u64::MAX) by (nonlinear_arith)
            requires
                w <= u32::MAX,
                h <= u32::MAX,
        ;
        let count = w as u64 * h as u64;
        let blen = self.glyph_bitmaps_bytes.len();
        assert(e.pixels_offset + 4 * count <= blen);
        let end = e.pixels_offset + 4 * (count as usize);
        let pixels = vstd::slice::slice_subrange(self.glyph_bitmaps_bytes, e.pixels_offset, end);
        GlyphData { header: e.bitmap, pixels }
    }
}


/// Decoding an encoded atlas gives back the header, every record's fields, and every coverage
/// value bit for bit.
pub proof fn lemma_atlas_round_trip(
    a: GlyphBitmapIterator,
    h: GlyphBitmapsHeader,
    gs: Seq<GlyphSource>,
)
    requires
        a.wf(),
        a.bytes() == encoding(h, gs),
        sources_valid(gs),
        h.num_glyphs == gs.len(),
    ensures
        a.header_spec() == h,
        a.glyphs() == gs.map_values(|g: GlyphSource| g.bitmap),
        forall|i: int| 0 <= i < gs.len() ==> (#[trigger] a.glyph_pixels(i)).len() == 4 * gs[i].coverage@.len(),
        forall|i: int, k: int|
            0 <= i < gs.len() && 0 <= k < gs[i].coverage@.len() ==> u32_at(a.glyph_pixels(i), 4 * k)
                == #[trigger] gs[i].coverage@[k],
{
    lemma_encoding_round_trip(h, gs);
    let b = a.bytes();
    assert forall|i: int| 0 <= i < gs.len() implies a.glyphs()[i] == gs[i].bitmap by {
        assert(bitmap_matches(a.glyphs()[i], b, record_offset(b, i as nat)));
        assert(bitmap_matches(gs[i].bitmap, b, record_offset(b, i as nat)));
    }
    assert(a.glyphs() =~= gs.map_values(|g: GlyphSource| g.bitmap));
    assert forall|i: int| 0 <= i < gs.len() implies (#[trigger] a.glyph_pixels(i)).len() == 4
        * gs[i].coverage@.len() && (forall|k: int|
        0 <= k < gs[i].coverage@.len() ==> u32_at(a.glyph_pixels(i), 4 * k)
            == #[trigger] gs[i].coverage@[k]) by {
        lemma_scan_ok(b, gs.len(), i as nat);
        let p = record_offset(b, i as nat) + RECORD_SIZE;
        assert forall|k: int| 0 <= k < gs[i].coverage@.len() implies u32_at(a.glyph_pixels(i), 4 * k)
            == #[trigger] gs[i].coverage@[k] by {
            assert(u32_at(b, p + 4 * k) == gs[i].coverage@[k]);
            let px = a.glyph_pixels(i);
            assert(px[4 * k] == b[p + 4 * k]);
            assert(px[4 * k + 1] == b[p + 4 * k + 1]);
            assert(px[4 * k + 2] == b[p + 4 * k + 2]);
            assert(px[4 * k + 3] == b[p + 4 * k + 3]);
        }
    }
}

/// No two glyph sources share a codepoint.
pub open spec fn codepoints_distinct(gs: Seq<GlyphSource>) -> bool {
    forall|i: int, j: int|
        0 <= i < gs.len() && 0 <= j < gs.len() && i != j ==> #[trigger] gs[i].bitmap.glyph
            != #[trigger] gs[j].bitmap.glyph
}

/// In an atlas decoded from distinct-codepoint glyphs, looking up the codepoint of glyph `i`
/// finds glyph `i`; a codepoint that no glyph has is found nowhere.
pub proof fn lemma_lookup_complete_and_absent(
    a: GlyphBitmapIterator,
    h: GlyphBitmapsHeader,
    gs: Seq<GlyphSource>,
    c: char,
)
    requires
        a.wf(),
        a.bytes() == encoding(h, gs),
        sources_valid(gs),
        h.num_glyphs == gs.len(),
        codepoints_distinct(gs),
    ensures
        forall|i: int|
            0 <= i < gs.len() && gs[i].bitmap.glyph == c ==> find_glyph(a.glyphs(), c as u32) == Some(i),
        (forall|i: int| 0 <= i < gs.len() ==> gs[i].bitmap.glyph != c) ==> find_glyph(a.glyphs(), c as u32)
            is None,
{
    lemma_atlas_round_trip(a, h, gs);
    lemma_find_glyph(a.glyphs(), c as u32);
    assert forall|i: int| 0 <= i < gs.len() implies #[trigger] a.glyphs()[i] == gs[i].bitmap by {}
    assert forall|i: int| 0 <= i < gs.len() && gs[i].bitmap.glyph == c implies find_glyph(
        a.glyphs(),
        c as u32,
    ) == Some(i) by {
        assert(a.glyphs()[i].glyph as u32 == c as u32);
        if let Some(k) = find_glyph(a.glyphs(), c as u32) {
            assert(a.glyphs()[k] == gs[k].bitmap);
            assert(gs[k].bitmap.glyph as u32 == c as u32);
            assert(gs[k].bitmap.glyph == c);
        }
    }
}

} // verus!
