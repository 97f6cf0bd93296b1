//! Incremental line layout with retained history, and the renderer that draws it.
use vstd::prelude::*;
use crate::atlas::{find_glyph, lemma_find_glyph, GlyphBitmapIterator};
use crate::codec::GlyphBitmap;
use crate::compositor::{blitted, draw_glyph_image};
use crate::graphics::{Color, LimineFramebuffer, Rgb};

verus! {

/// A point or offset in surface pixels.
#[derive(Clone, Copy, Debug, PartialEq, Eq)]
pub struct Vec2<T> {
    pub x: T,
    pub y: T,
}

/// Layout parameters and the atlas a renderer draws with.
pub struct TextRendererSettings<'a> {
    /// Line-start column and top of the first line (before the ascent is added).
    pub base_pixel_offset: Vec2<i64>,
    pub vertical_marginal: u32,
    pub horizontal_marginal: u32,
    pub line_gap: u32,
    pub text_color: Rgb,
    /// Color the surface is cleared to before a reflow redraws it.
    pub background_color: Rgb,
    pub glyph_bitmaps: GlyphBitmapIterator<'a>,
}

/// Bounds that keep every coordinate the layout computes inside `i64`.
pub open spec fn coordinate_ok(v: int) -> bool {
    -0x400_0000_0000 <= v <= 0x400_0000_0000
}

impl<'a> TextRendererSettings<'a> {
    /// The column every line starts at.
    pub open spec fn line_start_x(&self) -> int {
        self.base_pixel_offset.x as int
    }

    /// The glyph drawn for `c`, if the atlas has one.
    pub open spec fn glyph_for(&self, c: char) -> Option<GlyphBitmap> {
        match find_glyph(self.glyph_bitmaps.glyphs(), c as u32) {
            Some(k) => Some(self.glyph_bitmaps.glyphs()[k]),
            None => None,
        }
    }

    /// A glyph at pen column `x` moves to a new line first: the pen is past the line start and
    /// the glyph plus the margin would cross the right edge.
    pub open spec fn wraps(&self, width: int, x: int, g: GlyphBitmap) -> bool {
        x > self.line_start_x() && x + g.width_in_pixels + self.horizontal_marginal > width
    }

    /// Where glyph `g` is placed when the pen is at `pen`.
    pub open spec fn placed_at(&self, width: int, pen: (int, int), g: GlyphBitmap) -> (int, int) {
        if self.wraps(width, pen.0, g) {
            (self.line_start_x(), pen.1 + self.line_gap)
        } else {
            pen
        }
    }

    /// `c` starts a new line: it is a newline, or its glyph wraps.
    pub open spec fn starts_line(&self, width: int, pen: (int, int), c: char) -> bool {
        c == '\n' || (self.glyph_for(c) matches Some(g) && self.wraps(width, pen.0, g))
    }

    /// The pen after `c`: a newline moves to the start of the next line; a character without
    /// glyph leaves the pen; a glyph is placed, then the pen moves by its advance.
    pub open spec fn advance_pen(&self, width: int, pen: (int, int), c: char) -> (int, int) {
        if c == '\n' {
            (self.line_start_x(), pen.1 + self.line_gap)
        } else {
            match self.glyph_for(c) {
                None => pen,
                Some(g) => {
                    let p = self.placed_at(width, pen, g);
                    (p.0 + g.advance_width, p.1)
                },
            }
        }
    }

    /// The pen after laying `h` out from `start` on a surface `width` pixels wide.
    pub open spec fn run(&self, width: int, start: (int, int), h: Seq<char>) -> (int, int)
        decreases h.len(),
    {
        if h.len() == 0 {
            start
        } else {
            self.advance_pen(width, self.run(width, start, h.drop_last()), h.last())
        }
    }

    /// Layout parameters that keep coordinates bounded.
    pub open spec fn bounded(&self) -> bool {
        -0x100_0000_0000 <= self.base_pixel_offset.x <= 0x100_0000_0000
    }
}

/// Moving the starting point of a layout up or down by `d` moves every pen position by `d`
/// and leaves every column as it was: reflowing from a shifted origin reproduces the same
/// relative layout.
pub proof fn lemma_layout_translates(
    s: &TextRendererSettings,
    width: int,
    start: (int, int),
    h: Seq<char>,
    d: int,
)
    ensures
        s.run(width, (start.0, start.1 + d), h) == (s.run(width, start, h).0, s.run(width, start, h).1
            + d),
    decreases h.len(),
{
    if h.len() > 0 {
        lemma_layout_translates(s, width, start, h.drop_last(), d);
    }
}

/// Laying `h` out moves the pen down by at most one line per character, never up.
pub proof fn lemma_layout_rows(s: &TextRendererSettings, width: int, start: (int, int), h: Seq<char>)
    ensures
        start.1 <= s.run(width, start, h).1 <= start.1 + h.len() * s.line_gap,
    decreases h.len(),
{
    if h.len() > 0 {
        lemma_layout_rows(s, width, start, h.drop_last());
        assert((h.len() - 1) * s.line_gap + s.line_gap == h.len() * s.line_gap) by (nonlinear_arith);
    }
}

/// One step keeps a bounded pen column bounded.
proof fn lemma_advance_column(s: &TextRendererSettings, width: int, pen: (int, int), c: char)
    requires
        s.bounded(),
        0 <= width <= u32::MAX,
        coordinate_ok(pen.0),
    ensures
        coordinate_ok(s.advance_pen(width, pen, c).0),
{
}

/// Laying out from a bounded column keeps the column bounded.
pub proof fn lemma_layout_columns(s: &TextRendererSettings, width: int, start: (int, int), h: Seq<char>)
    requires
        s.bounded(),
        0 <= width <= u32::MAX,
        coordinate_ok(start.0),
    ensures
        coordinate_ok(s.run(width, start, h).0),
    decreases h.len(),
{
    if h.len() > 0 {
        lemma_layout_columns(s, width, start, h.drop_last());
        lemma_advance_column(s, width, s.run(width, start, h.drop_last()), h.last());
    }
}

/// A character other than a newline that the atlas lacks starts no line and leaves the pen
/// where it was.
pub proof fn lemma_absent_glyph_is_skipped(s: &TextRendererSettings, width: int, pen: (int, int), c: char)
    requires
        c != '\n',
        s.glyph_for(c) is None,
    ensures
        !s.starts_line(width, pen, c),
        s.advance_pen(width, pen, c) == pen,
{
}

/// At the start of a line no glyph wraps, however wide: a glyph wider than the surface is
/// placed there rather than pushed to a new line again.
pub proof fn lemma_no_wrap_at_line_start(s: &TextRendererSettings, width: int, y: int, g: GlyphBitmap)
    ensures
        s.placed_at(width, (s.line_start_x(), y), g) == (s.line_start_x(), y),
{
}


/// Glyphs laid out from the start of a line, none a newline and all in the atlas, stay on that
/// line until the first one that would cross the right margin; that one is placed at the start
/// of the next line.
pub proof fn lemma_wrap_line(s: &TextRendererSettings, width: int, y: int, h: Seq<char>, k: int)
    requires
        0 <= k < h.len(),
        forall|i: int| 0 <= i < h.len() ==> #[trigger] h[i] != '\n' && s.glyph_for(h[i]) is Some,
        forall|i: int|
            0 <= i < k ==> !s.wraps(
                width,
                s.run(width, (s.line_start_x(), y), #[trigger] h.take(i)).0,
                s.glyph_for(h[i])->0,
            ),
        s.wraps(width, s.run(width, (s.line_start_x(), y), h.take(k)).0, s.glyph_for(h[k])->0),
    ensures
        forall|i: int|
            0 <= i < k ==> s.placed_at(
                width,
                s.run(width, (s.line_start_x(), y), #[trigger] h.take(i)),
                s.glyph_for(h[i])->0,
            ).1 == y,
        s.placed_at(width, s.run(width, (s.line_start_x(), y), h.take(k)), s.glyph_for(h[k])->0) == (
            s.line_start_x(),
            y + s.line_gap,
        ),
{
    lemma_same_row(s, width, y, h, k);
}

proof fn lemma_same_row(s: &TextRendererSettings, width: int, y: int, h: Seq<char>, k: int)
    requires
        0 <= k <= h.len(),
        forall|i: int| 0 <= i < h.len() ==> #[trigger] h[i] != '\n' && s.glyph_for(h[i]) is Some,
        forall|i: int|
            0 <= i < k ==> !s.wraps(
                width,
                s.run(width, (s.line_start_x(), y), #[trigger] h.take(i)).0,
                s.glyph_for(h[i])->0,
            ),
    ensures
        forall|i: int| 0 <= i <= k ==> s.run(width, (s.line_start_x(), y), #[trigger] h.take(i)).1 == y,
    decreases k,
{
    if k > 0 {
        lemma_same_row(s, width, y, h, k - 1);
        assert(h.take(k).drop_last() =~= h.take(k - 1));
        assert(h.take(k).last() == h[k - 1]);
    } else {
        assert(h.take(0) =~= Seq::<char>::empty());
    }
}

/// Bytes of UTF-8 history a renderer keeps for reflow.
pub const TEXT_BUFFER_CAPACITY: usize = 4096;

/// Bytes of the UTF-8 encoding of `c`.
pub open spec fn utf8_len(c: char) -> nat {
    if (c as u32) < 0x80 {
        1
    } else if (c as u32) < 0x800 {
        2
    } else if (c as u32) < 0x10000 {
        3
    } else {
        4
    }
}

/// Bytes of the UTF-8 encoding of `h`.
pub open spec fn utf8_len_seq(h: Seq<char>) -> nat
    decreases h.len(),
{
    if h.len() == 0 {
        0
    } else {
        utf8_len_seq(h.drop_last()) + utf8_len(h.last())
    }
}

proof fn lemma_utf8_len_split(h: Seq<char>, i: int)
    requires
        0 <= i <= h.len(),
    ensures
        utf8_len_seq(h) == utf8_len_seq(h.take(i)) + utf8_len_seq(h.skip(i)),
        utf8_len_seq(h) >= h.len(),
    decreases h.len(),
{
    if h.len() == 0 {
        assert(h.take(i) =~= h);
        assert(h.skip(i) =~= h);
    } else if i == h.len() {
        assert(h.take(i) =~= h);
        assert(h.skip(i) =~= Seq::<char>::empty());
        lemma_utf8_len_split(h.drop_last(), i - 1);
    } else {
        lemma_utf8_len_split(h.drop_last(), i);
        assert(h.drop_last().take(i) =~= h.take(i));
        assert(h.skip(i).drop_last() =~= h.drop_last().skip(i));
        assert(h.skip(i).last() == h.last());
    }
}

fn char_utf8_len(c: char) -> (r: usize)
    ensures
        r == utf8_len(c),
{
    let v = c as u32;
    if v < 0x80 {
        1
    } else if v < 0x800 {
        2
    } else if v < 0x10000 {
        3
    } else {
        4
    }
}

pub open spec fn pt(v: Vec2<i64>) -> (int, int) {
    (v.x as int, v.y as int)
}

/// A row the layout may compute with.
pub open spec fn row_ok(y: int) -> bool {
    -0x8000_0000_0000 <= y <= 0x8000_0000_0000
}

/// Lowest row a history origin is kept at.
pub const ROW_FLOOR: i64 = -0x4000_0000_0000;

/// Highest row the pen is kept at.
pub const ROW_CEILING: i64 = 0x200_0000_0000;

/// A surface the layout can address with `i64` coordinates.
pub open spec fn surface_ok(fb: &LimineFramebuffer) -> bool {
    fb.wf() && fb.width <= u32::MAX && fb.height <= u32::MAX
}

impl<'a> TextRendererSettings<'a> {
    /// How far above the baseline the top row of a glyph `height` pixels high sits: its height
    /// less one, at most the ascent.
    pub open spec fn lift(&self, height: u32) -> int {
        let ascent = self.glyph_bitmaps.header_spec().ascent;
        if height - 1 < ascent {
            height - 1
        } else {
            ascent as int
        }
    }

    /// `fb1` is `fb0` after `c` is drawn with the pen at `pen`: a glyph with a visible box is
    /// blitted at its place (left side bearing to the right, lifted so that its bottom row sits
    /// on the baseline or below it), and anything else leaves the surface as it was.
    pub open spec fn char_drawn(
        &self,
        fb0: &LimineFramebuffer,
        fb1: &LimineFramebuffer,
        pen: (int, int),
        c: char,
    ) -> bool {
        match find_glyph(self.glyph_bitmaps.glyphs(), c as u32) {
            Some(k) if c != '\n' && self.glyph_bitmaps.glyphs()[k].width_in_pixels > 0
                && self.glyph_bitmaps.glyphs()[k].height_in_pixels > 0 => {
                let g = self.glyph_bitmaps.glyphs()[k];
                let p = self.placed_at(fb0.width as int, pen, g);
                blitted(
                    fb0,
                    fb1,
                    g,
                    self.glyph_bitmaps.glyph_pixels(k),
                    self.text_color,
                    p.0 + g.left_side_bearing,
                    p.1 - self.lift(g.height_in_pixels),
                )
            },
            _ => unchanged(fb0, fb1),
        }
    }

    /// `fb1` is `fb0` after the characters of `h` are drawn in order from the pen at `start`.
    pub open spec fn replayed(
        &self,
        fb0: &LimineFramebuffer,
        fb1: &LimineFramebuffer,
        start: (int, int),
        h: Seq<char>,
    ) -> bool
        decreases h.len(),
    {
        if h.len() == 0 {
            unchanged(fb0, fb1)
        } else {
            exists|mid: LimineFramebuffer|
                self.replayed(fb0, &mid, start, h.drop_last()) && mid.same_geometry(*fb0) && self.char_drawn(
                    &mid,
                    fb1,
                    self.run(fb0.width as int, start, h.drop_last()),
                    h.last(),
                )
        }
    }
}

/// The surface did not change.
pub open spec fn unchanged(fb0: &LimineFramebuffer, fb1: &LimineFramebuffer) -> bool {
    &&& fb1.wf()
    &&& fb1.same_geometry(*fb0)
    &&& fb1.pixels@ == fb0.pixels@
}

/// `fb1` is `fb0` with every visible pixel set to `value`.
pub open spec fn filled(fb0: &LimineFramebuffer, fb1: &LimineFramebuffer, value: u32) -> bool {
    &&& fb1.wf()
    &&& fb1.same_geometry(*fb0)
    &&& fb1.pixels@.len() == fb0.pixels@.len()
    &&& forall|x: int, y: int| fb0.in_bounds(x, y) ==> #[trigger] fb1.pixels@[fb0.slot(x, y)] == value
    &&& forall|j: int|
        0 <= j < fb0.pixels@.len() && j % fb0.stride() >= fb0.width ==> #[trigger] fb1.pixels@[j]
            == fb0.pixels@[j]
}

/// Drawing the history character by character is the same as drawing it once more character:
/// a renderer that emits `h` and then `c` from `start` without running out of rows leaves
/// exactly the surface of replaying `h.push(c)` from `start`.
pub proof fn lemma_replay_extends(
    s: &TextRendererSettings,
    fb0: &LimineFramebuffer,
    fb1: &LimineFramebuffer,
    fb2: &LimineFramebuffer,
    start: (int, int),
    h: Seq<char>,
    c: char,
)
    requires
        s.replayed(fb0, fb1, start, h),
        fb1.same_geometry(*fb0),
        s.char_drawn(fb1, fb2, s.run(fb0.width as int, start, h), c),
    ensures
        s.replayed(fb0, fb2, start, h.push(c)),
{
    let hc = h.push(c);
    assert(hc.drop_last() =~= h);
    assert(hc.last() == c);
    assert(s.replayed(fb0, fb1, start, hc.drop_last()));
    assert(s.char_drawn(fb1, fb2, s.run(fb0.width as int, start, hc.drop_last()), hc.last()));
    let mid = *fb1;
    assert(s.replayed(fb0, &mid, start, hc.drop_last()) && mid.same_geometry(*fb0) && s.char_drawn(
        &mid,
        fb2,
        s.run(fb0.width as int, start, hc.drop_last()),
        hc.last(),
    ));
    assert(hc.len() != 0);
    assert(s.replayed(fb0, fb2, start, hc));
}

/// Whether `c` starts a new line with the pen at `pen` on a surface `width` pixels wide.
fn breaks_line(s: &TextRendererSettings, width: u64, pen: Vec2<i64>, c: char) -> (r: bool)
    requires
        s.glyph_bitmaps.wf(),
        s.bounded(),
        width <= u32::MAX,
        coordinate_ok(pen.x as int),
    ensures
        r == s.starts_line(width as int, pt(pen), c),
{
    if c == '\n' {
        return true;
    }
    proof {
        lemma_find_glyph(s.glyph_bitmaps.glyphs(), c as u32);
    }
    match s.glyph_bitmaps.glyph_data(c) {
        None => false,
        Some(gd) => pen.x > s.base_pixel_offset.x && pen.x + (gd.header.width_in_pixels as i64)
            + (s.horizontal_marginal as i64) > width as i64,
    }
}

/// Lays `c` out with the pen at `pen`, draws its glyph, and returns the pen after it.
fn place_and_draw(
    s: &TextRendererSettings,
    fb: &mut LimineFramebuffer,
    pen: Vec2<i64>,
    c: char,
) -> (r: Vec2<i64>)
    requires
        s.glyph_bitmaps.wf(),
        s.bounded(),
        surface_ok(&*old(fb)),
        coordinate_ok(pen.x as int),
        row_ok(pen.y as int),
    ensures
        pt(r) == s.advance_pen(old(fb).width as int, pt(pen), c),
        s.char_drawn(&*old(fb), &*final(fb), pt(pen), c),
        c == '\n' || s.glyph_for(c) is None ==> final(fb).pixels@ == old(fb).pixels@,
        surface_ok(&*final(fb)),
        final(fb).same_geometry(*old(fb)),
        final(fb).pixels@.len() == old(fb).pixels@.len(),
{
    proof {
        lemma_advance_column(s, fb.width as int, pt(pen), c);
    }
    if c == '\n' {
        return Vec2 { x: s.base_pixel_offset.x, y: pen.y + s.line_gap as i64 };
    }
    proof {
        lemma_find_glyph(s.glyph_bitmaps.glyphs(), c as u32);
    }
    match s.glyph_bitmaps.glyph_data(c) {
        None => pen,
        Some(gd) => {
            let w = gd.header.width_in_pixels;
            let h = gd.header.height_in_pixels;
            let mut p = pen;
            if pen.x > s.base_pixel_offset.x && pen.x + (w as i64) + (s.horizontal_marginal as i64)
                > fb.width as i64 {
                p = Vec2 { x: s.base_pixel_offset.x, y: pen.y + s.line_gap as i64 };
            }
            if w > 0 && h > 0 {
                let ascent = s.glyph_bitmaps.header().ascent;
                let lift = if h - 1 < ascent {
                    h - 1
                } else {
                    ascent
                };
                let offset_x = p.x + gd.header.left_side_bearing as i64;
                let offset_y = p.y - lift as i64;
                draw_glyph_image(fb, &gd, &s.text_color, offset_x, offset_y);
            }
            Vec2 { x: p.x + gd.header.advance_width as i64, y: p.y }
        },
    }
}


/// A console renderer: a pen, the settings, and the history of what was emitted since the
/// history origin, replayed when the surface runs out of rows.
///
/// The history holds at most `TEXT_BUFFER_CAPACITY` bytes of UTF-8. When a character does not
/// fit, the lines above the current one are forgotten and the origin moves to the start of the
/// current line; if the current line alone is too long, the whole history is forgotten and the
/// origin moves to the pen. Either way the retained history, laid out from the origin, still
/// ends at the pen, so a later reflow redraws the current line as it stands.
pub struct TextRenderer<'a> {
    text_buffer: Vec<char>,
    text_buffer_offset: usize,
    current_pixel_offset: Vec2<i64>,
    history_origin: Vec2<i64>,
    line_origin: Vec2<i64>,
    line_start: usize,
    line_start_offset: usize,
    settings: TextRendererSettings<'a>,
}

impl<'a> TextRenderer<'a> {
    /// Where the next glyph would be placed, before any wrap.
    pub closed spec fn pen(&self) -> (int, int) {
        pt(self.current_pixel_offset)
    }

    /// The pen position the retained history is laid out from.
    pub closed spec fn origin(&self) -> (int, int) {
        pt(self.history_origin)
    }

    /// The characters retained for reflow, oldest first.
    pub closed spec fn history(&self) -> Seq<char> {
        self.text_buffer@
    }

    pub closed spec fn settings_spec(&self) -> &TextRendererSettings<'a> {
        &self.settings
    }

    /// Index in the history of the first character laid out on the current line.
    pub closed spec fn line_start_index(&self) -> int {
        self.line_start as int
    }

    /// The pen position the current line is laid out from.
    pub closed spec fn line_origin(&self) -> (int, int) {
        pt(self.line_origin)
    }

    /// The history after recording `c`: `c` is appended when it fits; otherwise the lines
    /// above the current one are forgotten first, and if that still leaves no room, everything
    /// before `c` is.
    pub open spec fn kept_history(&self, c: char) -> Seq<char> {
        let h = self.history();
        let line = h.skip(self.line_start_index());
        if utf8_len_seq(h) + utf8_len(c) <= TEXT_BUFFER_CAPACITY {
            h.push(c)
        } else if utf8_len_seq(line) + utf8_len(c) <= TEXT_BUFFER_CAPACITY {
            line.push(c)
        } else {
            seq![c]
        }
    }

    /// The origin the kept history is laid out from: unchanged when `c` fits, the current
    /// line's origin when the lines above it are forgotten, the pen when everything is.
    pub open spec fn kept_origin(&self, c: char) -> (int, int) {
        let h = self.history();
        let line = h.skip(self.line_start_index());
        if utf8_len_seq(h) + utf8_len(c) <= TEXT_BUFFER_CAPACITY {
            self.origin()
        } else if utf8_len_seq(line) + utf8_len(c) <= TEXT_BUFFER_CAPACITY {
            self.line_origin()
        } else {
            self.pen()
        }
    }

    /// Internal consistency for a surface `width` pixels wide: the retained history laid out
    /// from the origin ends at the pen, and so does the current line laid out from its start.
    pub closed spec fn inv(&self, width: int) -> bool {
        let s = &self.settings;
        let h = self.text_buffer@;
        &&& s.glyph_bitmaps.wf()
        &&& s.bounded()
        &&& 0 <= width <= u32::MAX
        &&& self.text_buffer_offset == utf8_len_seq(h)
        &&& self.text_buffer_offset <= TEXT_BUFFER_CAPACITY
        &&& self.line_start <= h.len()
        &&& self.line_start_offset == utf8_len_seq(h.take(self.line_start as int))
        &&& s.run(width, pt(self.history_origin), h) == pt(self.current_pixel_offset)
        &&& s.run(width, pt(self.line_origin), h.skip(self.line_start as int)) == pt(
            self.current_pixel_offset,
        )
        &&& coordinate_ok(self.current_pixel_offset.x as int)
        &&& coordinate_ok(self.history_origin.x as int)
        &&& coordinate_ok(self.line_origin.x as int)
        &&& ROW_FLOOR <= self.history_origin.y
        &&& ROW_FLOOR <= self.line_origin.y
        &&& self.current_pixel_offset.y <= ROW_CEILING
    }

    /// A renderer with an empty history whose first line's baseline sits `ascent` below the
    /// configured top.
    pub fn new(settings: TextRendererSettings<'a>) -> (r: TextRenderer<'a>)
        requires
            settings.glyph_bitmaps.wf(),
            settings.bounded(),
            -0x100_0000_0000 <= settings.base_pixel_offset.y <= 0x100_0000_0000,
        ensures
            forall|w: int| 0 <= w <= u32::MAX ==> r.inv(w),
            r.history() == Seq::<char>::empty(),
            r.pen() == (settings.base_pixel_offset.x as int, settings.base_pixel_offset.y
                + settings.glyph_bitmaps.header_spec().ascent),
            r.origin() == r.pen(),
            r.settings_spec().base_pixel_offset == (Vec2 {
                x: settings.base_pixel_offset.x,
                y: (settings.base_pixel_offset.y + settings.glyph_bitmaps.header_spec().ascent) as i64,
            }),
            r.settings_spec().vertical_marginal == settings.vertical_marginal,
            r.settings_spec().horizontal_marginal == settings.horizontal_marginal,
            r.settings_spec().line_gap == settings.line_gap,
            r.settings_spec().text_color == settings.text_color,
            r.settings_spec().background_color == settings.background_color,
            r.settings_spec().glyph_bitmaps == settings.glyph_bitmaps,
    {
        let mut settings = settings;
        let ascent = settings.glyph_bitmaps.header().ascent;
        settings.base_pixel_offset.y = settings.base_pixel_offset.y + ascent as i64;
        let start = settings.base_pixel_offset;
        let r = TextRenderer {
            text_buffer: Vec::new(),
            text_buffer_offset: 0,
            current_pixel_offset: start,
            history_origin: start,
            line_origin: start,
            line_start: 0,
            line_start_offset: 0,
            settings,
        };
        assert(r.text_buffer@.take(0) =~= Seq::<char>::empty());
        assert(r.text_buffer@.skip(0) =~= Seq::<char>::empty());
        r
    }

    /// Appends `c` to the history, which the pen has not passed yet. Where the history has no
    /// room, it first forgets the lines above the current one, and then, if that is not enough,
    /// everything. Afterwards the history laid out from the origin ends where `c` leaves the pen.
    fn record(&mut self, width: u64, c: char, breaks: bool)
        requires
            old(self).inv(width as int),
            breaks == old(self).settings.starts_line(width as int, old(self).pen(), c),
        ensures
            final(self).settings == old(self).settings,
            final(self).current_pixel_offset == old(self).current_pixel_offset,
            ({
                let s = &final(self).settings;
                let h = final(self).text_buffer@;
                let next = s.advance_pen(width as int, old(self).pen(), c);
                &&& final(self).text_buffer_offset == utf8_len_seq(h)
                &&& final(self).text_buffer_offset <= TEXT_BUFFER_CAPACITY
                &&& final(self).line_start <= h.len()
                &&& final(self).line_start_offset == utf8_len_seq(h.take(final(self).line_start as int))
                &&& s.run(width as int, pt(final(self).history_origin), h) == next
                &&& s.run(width as int, pt(final(self).line_origin), h.skip(final(self).line_start as int))
                    == next
                &&& coordinate_ok(final(self).history_origin.x as int)
                &&& coordinate_ok(final(self).line_origin.x as int)
                &&& ROW_FLOOR <= final(self).history_origin.y
                &&& ROW_FLOOR <= final(self).line_origin.y
                &&& final(self).line_origin.y <= next.1
                &&& final(self).history_origin.y <= next.1
            }),
            final(self).text_buffer@ == old(self).kept_history(c),
            pt(final(self).history_origin) == old(self).kept_origin(c),
            utf8_len_seq(old(self).history()) + utf8_len(c) <= TEXT_BUFFER_CAPACITY
                ==> final(self).history_origin == old(self).history_origin,
    {
        let ghost s = self.settings;
        let ghost w = width as int;
        let ghost pen0 = pt(self.current_pixel_offset);
        let n = char_utf8_len(c);
        proof {
            lemma_utf8_len_split(self.text_buffer@, self.line_start as int);
        }
        if self.text_buffer_offset + n > TEXT_BUFFER_CAPACITY {
            let mut kept: Vec<char> = Vec::new();
            let mut i: usize = self.line_start;
            while i < self.text_buffer.len()
                invariant
                    self.line_start <= i <= self.text_buffer@.len(),
                    kept@ == self.text_buffer@.subrange(self.line_start as int, i as int),
                decreases self.text_buffer@.len() - i,
            {
                kept.push(self.text_buffer[i]);
                i = i + 1;
            }
            assert(kept@ =~= old(self).text_buffer@.skip(old(self).line_start as int));
            self.text_buffer = kept;
            self.text_buffer_offset = self.text_buffer_offset - self.line_start_offset;
            self.history_origin = self.line_origin;
            self.line_start = 0;
            self.line_start_offset = 0;
            assert(self.text_buffer@.take(0) =~= Seq::<char>::empty());
            assert(self.text_buffer@.skip(0) =~= self.text_buffer@);
            proof {
                lemma_layout_rows(&s, w, pt(self.line_origin), self.text_buffer@);
            }
            if self.text_buffer_offset + n > TEXT_BUFFER_CAPACITY {
                self.text_buffer = Vec::new();
                self.text_buffer_offset = 0;
                self.history_origin = self.current_pixel_offset;
                self.line_origin = self.current_pixel_offset;
                assert(self.text_buffer@.take(0) =~= Seq::<char>::empty());
                assert(self.text_buffer@.skip(0) =~= Seq::<char>::empty());
            }
        }
        let ghost h0 = self.text_buffer@;
        proof {
            lemma_layout_rows(&s, w, pt(self.history_origin), h0);
            lemma_layout_rows(&s, w, pt(self.line_origin), h0.skip(self.line_start as int));
        }
        self.text_buffer.push(c);
        self.text_buffer_offset = self.text_buffer_offset + n;
        let ghost h1 = self.text_buffer@;
        assert(h1.drop_last() =~= h0);
        assert(h1.skip(self.line_start as int).drop_last() =~= h0.skip(self.line_start as int));
        assert(h1.take(self.line_start as int) =~= h0.take(self.line_start as int));
        assert(h1.last() == c);
        assert(utf8_len_seq(h1) == utf8_len_seq(h0) + utf8_len(c));
        assert(h1.skip(self.line_start as int).last() == c);
        assert(s.run(w, pt(self.line_origin), h0.skip(self.line_start as int)) == pen0);
        assert(s.run(w, pt(self.line_origin), h1.skip(self.line_start as int)) == s.advance_pen(
            w,
            pen0,
            c,
        ));
        if breaks {
            let row = self.current_pixel_offset.y + self.settings.line_gap as i64;
            self.line_origin = Vec2 { x: self.settings.base_pixel_offset.x, y: row };
            if c == '\n' {
                self.line_start = self.text_buffer.len();
                self.line_start_offset = self.text_buffer_offset;
                assert(h1.take(h1.len() as int) =~= h1);
                assert(h1.skip(h1.len() as int) =~= Seq::<char>::empty());
            } else {
                self.line_start = self.text_buffer.len() - 1;
                self.line_start_offset = self.text_buffer_offset - n;
                proof {
                    assert(h1.take(h1.len() - 1) =~= h0);
                    let one = h1.skip(h1.len() - 1);
                    assert(one.drop_last() =~= Seq::<char>::empty());
                    assert(one.last() == c);
                    assert(one.len() == 1);
                    assert(s.run(w, pt(self.line_origin), one.drop_last()) == pt(self.line_origin));
                    assert(s.run(w, pt(self.line_origin), one) == s.advance_pen(
                        w,
                        pt(self.line_origin),
                        c,
                    ));
                }
            }
        }
    }
}


impl<'a> TextRenderer<'a> {
    /// The row the newest line may reach on a surface `height` pixels high: the vertical margin
    /// and the descent stay free below it.
    pub open spec fn lowest_row(&self, height: int) -> int {
        height - (self.settings_spec().vertical_marginal + self.settings_spec().glyph_bitmaps.header_spec().descent)
    }

    /// `c` opens a line below the lowest row: the surface has run out of rows.
    pub open spec fn overflows(&self, width: int, height: int, c: char) -> bool {
        &&& self.settings_spec().starts_line(width, self.pen(), c)
        &&& self.settings_spec().advance_pen(width, self.pen(), c).1 > self.lowest_row(height)
    }

    /// `r1` and `fb1` are what emitting `c` makes of renderer `r0` and surface `fb0`. The pen
    /// moves as `advance_pen` says, unless the new line would pass the lowest row: then the
    /// newest line lands exactly on the lowest row, the origin moves up by the shortfall, and
    /// the surface is the background with the whole retained history drawn again from the
    /// origin. Otherwise only `c`'s glyph is drawn.
    pub open spec fn emits(
        r0: &TextRenderer<'a>,
        r1: &TextRenderer<'a>,
        fb0: &LimineFramebuffer,
        fb1: &LimineFramebuffer,
        c: char,
    ) -> bool {
        let w = fb0.width as int;
        let hgt = fb0.height as int;
        let s = r0.settings_spec();
        let next = s.advance_pen(w, r0.pen(), c);
        let room = utf8_len_seq(r0.history()) + utf8_len(c) <= TEXT_BUFFER_CAPACITY;
        &&& r1.inv(w)
        &&& surface_ok(fb1)
        &&& fb1.same_geometry(*fb0)
        &&& r1.settings_spec() == s
        &&& !r0.overflows(w, hgt, c) ==> r1.pen() == next
        &&& r0.overflows(w, hgt, c) ==> r1.pen() == (next.0, r0.lowest_row(hgt))
        &&& s.run(w, r1.origin(), r1.history()) == r1.pen()
        &&& r1.history() == r0.kept_history(c)
        &&& room ==> r1.history() == r0.history().push(c)
        &&& !r0.overflows(w, hgt, c) ==> r1.origin() == r0.kept_origin(c)
        &&& r0.overflows(w, hgt, c) ==> r1.origin() == (
            r0.kept_origin(c).0,
            r0.kept_origin(c).1 - (next.1 - r0.lowest_row(hgt)),
        )
        &&& c != '\n' && s.glyph_for(c) is None ==> fb1.pixels@ == fb0.pixels@
        &&& !r0.overflows(w, hgt, c) ==> s.char_drawn(fb0, fb1, r0.pen(), c)
        &&& r0.overflows(w, hgt, c) ==> exists|cleared: LimineFramebuffer|
            filled(fb0, &cleared, fb0.pack(fb0.clamp(s.background_color))) && s.replayed(
                &cleared,
                fb1,
                r1.origin(),
                r1.history(),
            )
    }

    /// Emits `c`. A newline moves the pen to the next line; a character the atlas lacks is
    /// skipped; a glyph that would cross the right margin (with the pen past the line start)
    /// first moves to the next line, is drawn, and advances the pen. When a new line would pass
    /// the lowest row, the origin moves up by exactly the shortfall, the surface is cleared, and
    /// the whole retained history is drawn again from there, so the newest line ends on the
    /// lowest row.
    pub fn draw_character(&mut self, framebuffer: &mut LimineFramebuffer, c: char)
        requires
            old(self).inv(old(framebuffer).width as int),
            surface_ok(&*old(framebuffer)),
        ensures
            Self::emits(&*old(self), &*final(self), &*old(framebuffer), &*final(framebuffer), c),
    {
        let width = framebuffer.width;
        let ghost w = width as int;
        let ghost s = self.settings;
        let pen = self.current_pixel_offset;
        proof {
            lemma_layout_rows(&s, w, pt(self.history_origin), self.text_buffer@);
        }
        let breaks = breaks_line(&self.settings, width, pen, c);
        let limit = framebuffer.height as i64 - (self.settings.vertical_marginal as i64
            + self.settings.glyph_bitmaps.header().descent as i64);
        if breaks && pen.y + self.settings.line_gap as i64 > limit {
            let shortfall = pen.y + self.settings.line_gap as i64 - limit;
            self.record(width, c, breaks);
            let ghost next = s.advance_pen(w, pt(pen), c);
            let ghost o1 = pt(self.history_origin);
            let ghost lo1 = pt(self.line_origin);
            let ghost h1 = self.text_buffer@;
            let ghost hs1 = h1.skip(self.line_start as int);
            assert(next.1 == pen.y + s.line_gap);
            self.shift_up(width, shortfall);
            proof {
                lemma_layout_translates(&s, w, o1, h1, -shortfall);
                lemma_layout_translates(&s, w, lo1, hs1, -shortfall);
                assert(pt(self.history_origin) == (o1.0, o1.1 + -shortfall));
                assert(pt(self.line_origin) == (lo1.0, lo1.1 + -shortfall));
                lemma_layout_columns(&s, w, pt(self.history_origin), h1);
            }
            let background = Color::new(framebuffer, self.settings.background_color);
            let ghost before_fill = *framebuffer;
            framebuffer.fill(background);
            let ghost cleared = *framebuffer;
            assert(filled(&before_fill, &cleared, background.0));
            self.redraw(framebuffer);
            assert(filled(&before_fill, &cleared, background.0) && self.settings.replayed(
                &cleared,
                &*framebuffer,
                pt(self.history_origin),
                self.text_buffer@,
            ));
            assert(before_fill == *old(framebuffer));
            assert(background.0 == old(framebuffer).pack(old(framebuffer).clamp(s.background_color)));
            assert(exists|cl: LimineFramebuffer|
                filled(
                    &*old(framebuffer),
                    &cl,
                    old(framebuffer).pack(old(framebuffer).clamp(s.background_color)),
                ) && self.settings.replayed(&cl, &*framebuffer, pt(self.history_origin), self.text_buffer@));
        } else {
            proof {
                if breaks {
                    assert(s.advance_pen(w, pt(pen), c).1 == pen.y + s.line_gap);
                }
                assert(!old(self).overflows(w, old(framebuffer).height as int, c));
            }
            let next = place_and_draw(&self.settings, framebuffer, pen, c);
            self.record(width, c, breaks);
            self.current_pixel_offset = next;
            proof {
                lemma_layout_columns(&s, w, pt(pen), seq![c]);
            }
        }
    }

    /// Moves the origin and the current line's start up by `shortfall` rows.
    fn shift_up(&mut self, width: u64, shortfall: i64)
        requires
            0 < shortfall,
            width <= u32::MAX,
            old(self).settings.glyph_bitmaps.wf(),
            old(self).settings.bounded(),
            old(self).text_buffer_offset <= TEXT_BUFFER_CAPACITY,
            old(self).text_buffer_offset == utf8_len_seq(old(self).text_buffer@),
            ROW_FLOOR <= old(self).history_origin.y,
            ROW_FLOOR <= old(self).line_origin.y,
            old(self).line_start <= old(self).text_buffer@.len(),
            ({
                let s = &old(self).settings;
                let h = old(self).text_buffer@;
                let target = s.run(width as int, pt(old(self).history_origin), h);
                &&& s.run(width as int, pt(old(self).line_origin), h.skip(old(self).line_start as int)) == target
                &&& -0x2_0000_0000 <= target.1 - shortfall <= 0x1_0000_0000
            }),
        ensures
            final(self).settings == old(self).settings,
            final(self).text_buffer == old(self).text_buffer,
            final(self).text_buffer_offset == old(self).text_buffer_offset,
            final(self).line_start == old(self).line_start,
            final(self).line_start_offset == old(self).line_start_offset,
            final(self).current_pixel_offset == old(self).current_pixel_offset,
            final(self).history_origin == (Vec2 { x: old(self).history_origin.x, y: (old(self).history_origin.y - shortfall) as i64 }),
            final(self).line_origin == (Vec2 { x: old(self).line_origin.x, y: (old(self).line_origin.y - shortfall) as i64 }),
            ROW_FLOOR <= final(self).history_origin.y,
            ROW_FLOOR <= final(self).line_origin.y,
    {
        let ghost s = self.settings;
        let ghost h = self.text_buffer@;
        let ghost hs = h.skip(self.line_start as int);
        proof {
            lemma_layout_rows(&s, width as int, pt(self.history_origin), h);
            lemma_layout_rows(&s, width as int, pt(self.line_origin), hs);
            lemma_utf8_len_split(h, self.line_start as int);
            lemma_layout_translates(&s, width as int, pt(self.history_origin), h, -shortfall);
            lemma_layout_translates(&s, width as int, pt(self.line_origin), hs, -shortfall);
            let o = pt(self.history_origin);
            let lo = pt(self.line_origin);
            lemma_layout_rows(&s, width as int, (o.0, o.1 - shortfall), h);
            lemma_layout_rows(&s, width as int, (lo.0, lo.1 - shortfall), hs);
            assert(h.len() * s.line_gap <= 0x1000 * 0xffff_ffff) by (nonlinear_arith)
                requires
                    h.len() <= 0x1000,
                    s.line_gap <= 0xffff_ffff,
            ;
            assert(hs.len() * s.line_gap <= 0x1000 * 0xffff_ffff) by (nonlinear_arith)
                requires
                    hs.len() <= 0x1000,
                    s.line_gap <= 0xffff_ffff,
            ;
        }
        self.history_origin.y = self.history_origin.y - shortfall;
        self.line_origin.y = self.line_origin.y - shortfall;
    }

    /// Draws the whole retained history from the origin and leaves the pen where it ends.
    fn redraw(&mut self, framebuffer: &mut LimineFramebuffer)
        requires
            surface_ok(&*old(framebuffer)),
            old(self).settings.glyph_bitmaps.wf(),
            old(self).settings.bounded(),
            old(framebuffer).width <= u32::MAX,
            old(self).text_buffer_offset <= TEXT_BUFFER_CAPACITY,
            old(self).text_buffer_offset == utf8_len_seq(old(self).text_buffer@),
            ROW_FLOOR <= old(self).history_origin.y,
            coordinate_ok(old(self).history_origin.x as int),
            old(self).settings.run(
                old(framebuffer).width as int,
                pt(old(self).history_origin),
                old(self).text_buffer@,
            ).1 <= ROW_CEILING,
        ensures
            surface_ok(&*final(framebuffer)),
            final(framebuffer).same_geometry(*old(framebuffer)),
            final(self).settings == old(self).settings,
            final(self).text_buffer == old(self).text_buffer,
            final(self).text_buffer_offset == old(self).text_buffer_offset,
            final(self).line_start == old(self).line_start,
            final(self).line_start_offset == old(self).line_start_offset,
            final(self).history_origin == old(self).history_origin,
            final(self).line_origin == old(self).line_origin,
            pt(final(self).current_pixel_offset) == old(self).settings.run(
                old(framebuffer).width as int,
                pt(old(self).history_origin),
                old(self).text_buffer@,
            ),
            old(self).settings.replayed(
                &*old(framebuffer),
                &*final(framebuffer),
                pt(old(self).history_origin),
                old(self).text_buffer@,
            ),
    {
        let ghost fb_start = *framebuffer;
        let ghost s = self.settings;
        let ghost w = framebuffer.width as int;
        let ghost h = self.text_buffer@;
        let ghost o = pt(self.history_origin);
        proof {
            lemma_utf8_len_split(h, 0);
            lemma_layout_rows(&s, w, o, h);
            assert(h.len() * s.line_gap <= 0x1000 * 0xffff_ffff) by (nonlinear_arith)
                requires
                    h.len() <= 0x1000,
                    s.line_gap <= 0xffff_ffff,
            ;
        }
        let mut pen = self.history_origin;
        let mut i: usize = 0;
        assert(h.take(0) =~= Seq::<char>::empty());
        assert(s.replayed(&fb_start, &*framebuffer, o, h.take(0)));
        while i < self.text_buffer.len()
            invariant
                s == self.settings,
                h == self.text_buffer@,
                s.glyph_bitmaps.wf(),
                s.bounded(),
                surface_ok(&*framebuffer),
                framebuffer.same_geometry(*old(framebuffer)),
                w == framebuffer.width,
                o == pt(self.history_origin),
                ROW_FLOOR <= o.1,
                coordinate_ok(o.0),
                s.run(w, o, h).1 <= ROW_CEILING,
                h.len() * s.line_gap <= 0x1000 * 0xffff_ffff,
                i <= h.len(),
                pt(pen) == s.run(w, o, h.take(i as int)),
                fb_start == *old(framebuffer),
                framebuffer.same_geometry(fb_start),
                s.replayed(&fb_start, &*framebuffer, o, h.take(i as int)),
                self.settings == old(self).settings,
                self.text_buffer == old(self).text_buffer,
                self.text_buffer_offset == old(self).text_buffer_offset,
                self.line_start == old(self).line_start,
                self.line_start_offset == old(self).line_start_offset,
                self.history_origin == old(self).history_origin,
                self.line_origin == old(self).line_origin,
            decreases h.len() - i,
        {
            proof {
                lemma_layout_columns(&s, w, o, h.take(i as int));
                lemma_layout_rows(&s, w, o, h.take(i as int));
                assert(h.take(i as int).len() * s.line_gap <= h.len() * s.line_gap) by (nonlinear_arith)
                    requires
                        h.take(i as int).len() <= h.len(),
                ;
                lemma_layout_rows(&s, w, o, h);
            }
            let ghost mid = *framebuffer;
            pen = place_and_draw(&self.settings, framebuffer, pen, self.text_buffer[i]);
            proof {
                assert(h.take(i + 1).drop_last() =~= h.take(i as int));
                assert(h.take(i + 1).last() == h[i as int]);
                lemma_replay_extends(&s, &fb_start, &mid, &*framebuffer, o, h.take(i as int), h[i as int]);
                assert(h.take(i as int).push(h[i as int]) =~= h.take(i + 1));
            }
            i = i + 1;
        }
        assert(h.take(i as int) =~= h);
        self.current_pixel_offset = pen;
    }
}


proof fn lemma_utf8_len_concat(a: Seq<char>, b: Seq<char>)
    ensures
        utf8_len_seq(a + b) == utf8_len_seq(a) + utf8_len_seq(b),
    decreases b.len(),
{
    if b.len() > 0 {
        lemma_utf8_len_concat(a, b.drop_last());
        assert((a + b).drop_last() =~= a + b.drop_last());
        assert((a + b).last() == b.last());
    } else {
        assert(a + b =~= a);
    }
}

impl<'a> TextRenderer<'a> {
    /// `r1` and `fb1` are what emitting the characters of `t` one by one makes of `r0` and `fb0`.
    pub open spec fn emits_text(
        r0: &TextRenderer<'a>,
        r1: &TextRenderer<'a>,
        fb0: &LimineFramebuffer,
        fb1: &LimineFramebuffer,
        t: Seq<char>,
    ) -> bool
        decreases t.len(),
    {
        if t.len() == 0 {
            *r1 == *r0 && *fb1 == *fb0
        } else {
            exists|rm: TextRenderer<'a>, fbm: LimineFramebuffer|
                Self::emits_text(r0, &rm, fb0, &fbm, t.drop_last()) && Self::emits(
                    &rm,
                    r1,
                    &fbm,
                    fb1,
                    t.last(),
                )
        }
    }

    /// Emits every character of `text` in order, as `draw_character` does. When the history has
    /// room for all of it, the history grows by exactly `text`.
    pub fn add_text(&mut self, framebuffer: &mut LimineFramebuffer, text: &str)
        requires
            old(self).inv(old(framebuffer).width as int),
            surface_ok(&*old(framebuffer)),
        ensures
            final(self).inv(old(framebuffer).width as int),
            surface_ok(&*final(framebuffer)),
            final(framebuffer).same_geometry(*old(framebuffer)),
            final(self).settings_spec() == old(self).settings_spec(),
            final(self).settings_spec().run(
                old(framebuffer).width as int,
                final(self).origin(),
                final(self).history(),
            ) == final(self).pen(),
            utf8_len_seq(old(self).history()) + utf8_len_seq(text@) <= TEXT_BUFFER_CAPACITY
                ==> final(self).history() == old(self).history() + text@,
            Self::emits_text(&*old(self), &*final(self), &*old(framebuffer), &*final(framebuffer), text@),
    {
        let ghost r0 = *self;
        let ghost fb0 = *framebuffer;
        let ghost h0 = self.history();
        let ghost w = framebuffer.width as int;
        let ghost fits = utf8_len_seq(h0) + utf8_len_seq(text@) <= TEXT_BUFFER_CAPACITY;
        proof {
            broadcast use vstd::string::axiom_spec_iter;
            assert(h0 + text@.take(0) =~= h0);
            assert(text@.take(0).len() == 0);
        }
        for c in it: text.chars()
            invariant
                it.seq() == text@,
                self.inv(w),
                w == framebuffer.width,
                surface_ok(&*framebuffer),
                framebuffer.same_geometry(*old(framebuffer)),
                self.settings_spec() == old(self).settings_spec(),
                fits == (utf8_len_seq(h0) + utf8_len_seq(text@) <= TEXT_BUFFER_CAPACITY),
                fits ==> self.history() == h0 + text@.take(it.index() as int),
                r0 == *old(self),
                fb0 == *old(framebuffer),
                Self::emits_text(&r0, &*self, &fb0, &*framebuffer, text@.take(it.index() as int)),
        {
            let ghost i = it.index() as int;
            proof {
                if fits {
                    lemma_utf8_len_split(text@, i + 1);
                    lemma_utf8_len_concat(h0, text@.take(i));
                    assert(text@.take(i + 1).drop_last() =~= text@.take(i));
                    assert(text@.take(i + 1).last() == c);
                }
            }
            let ghost rm = *self;
            let ghost fbm = *framebuffer;
            self.draw_character(framebuffer, c);
            proof {
                let t = text@.take(i + 1);
                assert(t.drop_last() =~= text@.take(i));
                assert(t.last() == c);
                assert(Self::emits_text(&r0, &rm, &fb0, &fbm, t.drop_last()) && Self::emits(
                    &rm,
                    &*self,
                    &fbm,
                    &*framebuffer,
                    t.last(),
                ));
                assert(Self::emits_text(&r0, &*self, &fb0, &*framebuffer, t));
                if fits {
                    assert(h0 + text@.take(i + 1) =~= (h0 + text@.take(i)).push(c));
                }
            }
        }
        proof {
            assert(text@.take(text@.len() as int) =~= text@);
        }
    }
}

impl<'a> TextRenderer<'a> {
    /// The pen: where the next glyph goes, before any wrap.
    pub fn current_pixel_offset(&self) -> (r: Vec2<i64>)
        ensures
            pt(r) == self.pen(),
    {
        self.current_pixel_offset
    }

    /// The pen position the retained history is laid out from.
    pub fn baseline_origin(&self) -> (r: Vec2<i64>)
        ensures
            pt(r) == self.origin(),
    {
        self.history_origin
    }

    /// A copy of the retained history.
    pub fn history_chars(&self) -> (r: Vec<char>)
        ensures
            r@ == self.history(),
    {
        let mut out: Vec<char> = Vec::new();
        let mut i: usize = 0;
        while i < self.text_buffer.len()
            invariant
                i <= self.text_buffer@.len(),
                out@ == self.text_buffer@.take(i as int),
            decreases self.text_buffer@.len() - i,
        {
            out.push(self.text_buffer[i]);
            assert(self.text_buffer@.take(i + 1) =~= self.text_buffer@.take(i as int).push(
                self.text_buffer@[i as int],
            ));
            i = i + 1;
        }
        assert(self.text_buffer@.take(i as int) =~= self.text_buffer@);
        out
    }

    /// Bytes of UTF-8 the retained history takes.
    pub fn history_bytes(&self) -> (r: usize)
        requires
            exists|w: int| self.inv(w),
        ensures
            r == utf8_len_seq(self.history()),
    {
        self.text_buffer_offset
    }
}

/// No character of `t`, laid out from `start`, opens a line below row `lowest`.
pub open spec fn fits_rows(s: &TextRendererSettings, width: int, lowest: int, start: (int, int), t: Seq<char>) -> bool {
    forall|i: int|
        0 <= i < t.len() && s.starts_line(width, s.run(width, start, #[trigger] t.take(i)), t[i])
            ==> s.advance_pen(width, s.run(width, start, t.take(i)), t[i]).1 <= lowest
}

proof fn lemma_rows_monotone(s: &TextRendererSettings, width: int, start: (int, int), t: Seq<char>, i: int)
    requires
        0 <= i <= t.len(),
    ensures
        s.run(width, start, t.take(i)).1 <= s.run(width, start, t).1,
    decreases t.len() - i,
{
    if i < t.len() {
        lemma_rows_monotone(s, width, start, t, i + 1);
        assert(t.take(i + 1).drop_last() =~= t.take(i));
    } else {
        assert(t.take(i) =~= t);
    }
}

/// A history whose layout ends on or above row `lowest` opens no line below it on the way:
/// replaying the history after a reflow, which leaves the newest line on the lowest row, runs
/// out of rows nowhere, so the replay itself never reflows again.
pub proof fn lemma_replay_fits(s: &TextRendererSettings, width: int, lowest: int, start: (int, int), t: Seq<char>)
    requires
        s.run(width, start, t).1 <= lowest,
    ensures
        fits_rows(s, width, lowest, start, t),
{
    assert forall|i: int|
        0 <= i < t.len() && s.starts_line(width, s.run(width, start, #[trigger] t.take(i)), t[i])
            implies s.advance_pen(width, s.run(width, start, t.take(i)), t[i]).1 <= lowest by {
        lemma_rows_monotone(s, width, start, t, i + 1);
        assert(t.take(i + 1).drop_last() =~= t.take(i));
        assert(t.take(i + 1).last() == t[i]);
    }
}

impl<'a> TextRenderer<'a> {
    /// Emitting text that never runs out of rows is laying it out from the pen: the pen ends
    /// where the layout of the text from the old pen ends, and the surface is the old surface
    /// with the text drawn character by character from there. With the pen at an origin and a
    /// background surface this is exactly what a reflow draws, so a reflow reproduces a fresh
    /// render from the new origin pixel for pixel; with no newline it places glyphs on one line
    /// until the first that wraps.
    pub proof fn lemma_emits_without_overflow(
        r0: &TextRenderer<'a>,
        r1: &TextRenderer<'a>,
        fb0: &LimineFramebuffer,
        fb1: &LimineFramebuffer,
        t: Seq<char>,
    )
        requires
            fb0.wf(),
            Self::emits_text(r0, r1, fb0, fb1, t),
            fits_rows(r0.settings_spec(), fb0.width as int, r0.lowest_row(fb0.height as int), r0.pen(), t),
        ensures
            r1.settings_spec() == r0.settings_spec(),
            r1.pen() == r0.settings_spec().run(fb0.width as int, r0.pen(), t),
            fb1.same_geometry(*fb0),
            r0.settings_spec().replayed(fb0, fb1, r0.pen(), t),
        decreases t.len(),
    {
        let s = r0.settings_spec();
        let w = fb0.width as int;
        if t.len() == 0 {
        } else {
            let (rm, fbm) = choose|rm: TextRenderer<'a>, fbm: LimineFramebuffer|
                Self::emits_text(r0, &rm, fb0, &fbm, t.drop_last()) && Self::emits(
                    &rm,
                    r1,
                    &fbm,
                    fb1,
                    t.last(),
                );
            let init = t.drop_last();
            assert forall|i: int|
                0 <= i < init.len() && s.starts_line(w, s.run(w, r0.pen(), #[trigger] init.take(i)), init[i])
                    implies s.advance_pen(w, s.run(w, r0.pen(), init.take(i)), init[i]).1 <= r0.lowest_row(
                    fb0.height as int,
                ) by {
                assert(init.take(i) =~= t.take(i));
                assert(init[i] == t[i]);
                assert(t.take(i) == init.take(i));
            }
            Self::lemma_emits_without_overflow(r0, &rm, fb0, &fbm, init);
            let k = t.len() - 1;
            assert(t.take(k) =~= init);
            assert(t[k] == t.last());
            assert(!rm.overflows(fbm.width as int, fbm.height as int, t.last()));
            assert(t.drop_last().push(t.last()) =~= t);
            lemma_replay_extends(s, fb0, &fbm, fb1, r0.pen(), init, t.last());
        }
    }

    /// After a reflow the newest line sits on the lowest row, and laying the retained history
    /// out again from the new origin runs out of rows nowhere: the reflow is done once.
    pub proof fn lemma_reflow_idempotent(
        r0: &TextRenderer<'a>,
        r1: &TextRenderer<'a>,
        fb0: &LimineFramebuffer,
        fb1: &LimineFramebuffer,
        c: char,
    )
        requires
            Self::emits(r0, r1, fb0, fb1, c),
            r0.overflows(fb0.width as int, fb0.height as int, c),
        ensures
            r1.pen().1 == r1.lowest_row(fb0.height as int),
            fits_rows(
                r1.settings_spec(),
                fb0.width as int,
                r1.lowest_row(fb0.height as int),
                r1.origin(),
                r1.history(),
            ),
    {
        lemma_replay_fits(
            r1.settings_spec(),
            fb0.width as int,
            r1.lowest_row(fb0.height as int),
            r1.origin(),
            r1.history(),
        );
    }
}

} // verus!
