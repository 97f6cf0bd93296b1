//! Colors and the pixel surface they are written to.
use vstd::prelude::*;
use vstd::arithmetic::power2::{lemma2_to64, lemma_pow2_strictly_increases, pow2};
use vstd::arithmetic::div_mod::lemma_fundamental_div_mod_converse;
use vstd::bits::lemma_u32_shl_is_mul;

verus! {

/// A color as red, green and blue intensities, in the surface's channel units.
#[derive(Clone, Copy, Debug, PartialEq, Eq, Structural)]
pub struct Rgb {
    pub r: u32,
    pub g: u32,
    pub b: u32,
}

/// A pixel value packed for a particular surface.
#[derive(Clone, Copy, Debug, PartialEq, Eq, Structural)]
pub struct Color(pub u32);

#[derive(Clone, Copy, Debug, PartialEq, Eq, Structural)]
pub enum ColorError {
    ColorTooLarge,
}

/// How a surface lays its pixels out; only packed RGB exists.
#[derive(Clone, Copy, Debug, PartialEq, Eq, Structural)]
pub enum LimineFramebufferMemoryModel {
    Rgb,
}

/// A linear pixel surface. Its memory is held as one word per pixel slot, `stride()` slots per
/// row; a pixel's bytes are the low `bpp / 8` bytes of its word, little-endian.
pub struct LimineFramebuffer {
    pub pixels: Vec<u32>,
    pub width: u64,
    pub height: u64,
    /// Bytes per row.
    pub pitch: u64,
    /// Bits per pixel.
    pub bpp: u16,
    pub memory_model: LimineFramebufferMemoryModel,
    pub red_mask_size: u8,
    pub red_mask_shift: u8,
    pub green_mask_size: u8,
    pub green_mask_shift: u8,
    pub blue_mask_size: u8,
    pub blue_mask_shift: u8,
}

/// The largest intensity a channel of `size` bits holds.
pub open spec fn channel_max(size: u8) -> int {
    if size >= 32 {
        u32::MAX as int
    } else {
        pow2(size as nat) - 1
    }
}

impl LimineFramebuffer {
    pub open spec fn bytes_per_pixel(&self) -> int {
        self.bpp as int / 8
    }

    /// Pixel slots per row.
    pub open spec fn stride(&self) -> int {
        self.pitch as int / self.bytes_per_pixel()
    }

    /// Index of the slot of pixel `(x, y)`.
    pub open spec fn slot(&self, x: int, y: int) -> int {
        y * self.stride() + x
    }

    /// The geometry is consistent: whole bytes per pixel, at most four; rows at least as wide as
    /// the visible width; one slot per pixel of every row; channel shifts inside a word.
    pub open spec fn wf(&self) -> bool {
        &&& 8 <= self.bpp <= 32
        &&& self.width <= self.stride()
        &&& self.pixels@.len() == self.stride() * self.height
        &&& self.red_mask_shift < 32
        &&& self.green_mask_shift < 32
        &&& self.blue_mask_shift < 32
    }

    /// `(x, y)` lies on the visible surface.
    pub open spec fn in_bounds(&self, x: int, y: int) -> bool {
        0 <= x < self.width && 0 <= y < self.height
    }

    /// The word of `rgb`, each channel shifted to its place.
    pub open spec fn pack(&self, rgb: Rgb) -> u32 {
        (rgb.r << (self.red_mask_shift as u32)) | (rgb.g << (self.green_mask_shift as u32)) | (rgb.b
            << (self.blue_mask_shift as u32))
    }

    /// Every channel of `rgb` fits its mask.
    pub open spec fn fits(&self, rgb: Rgb) -> bool {
        &&& rgb.r <= channel_max(self.red_mask_size)
        &&& rgb.g <= channel_max(self.green_mask_size)
        &&& rgb.b <= channel_max(self.blue_mask_size)
    }

    /// `rgb` with each channel lowered to what its mask holds.
    pub open spec fn clamp(&self, rgb: Rgb) -> Rgb {
        Rgb {
            r: if rgb.r > channel_max(self.red_mask_size) {
                channel_max(self.red_mask_size) as u32
            } else {
                rgb.r
            },
            g: if rgb.g > channel_max(self.green_mask_size) {
                channel_max(self.green_mask_size) as u32
            } else {
                rgb.g
            },
            b: if rgb.b > channel_max(self.blue_mask_size) {
                channel_max(self.blue_mask_size) as u32
            } else {
                rgb.b
            },
        }
    }
}

fn channel_max_of(size: u8) -> (r: u32)
    ensures
        r == channel_max(size),
{
    if size >= 32 {
        u32::MAX
    } else {
        proof {
            lemma2_to64();
            if size < 32 {
                lemma_pow2_strictly_increases(size as nat, 32);
            }
            lemma_u32_shl_is_mul(1, size as u32);
        }
        (1u32 << size) - 1
    }
}

impl Color {
    /// The closest color to `color_values` that the surface holds.
    pub fn new(framebuffer: &LimineFramebuffer, color_values: Rgb) -> (r: Color)
        requires
            framebuffer.wf(),
        ensures
            r.0 == framebuffer.pack(framebuffer.clamp(color_values)),
    {
        Self::new_closest(framebuffer, color_values)
    }

    /// A new `Color` with each channel of `color_values` clamped to its largest value.
    pub fn new_closest(framebuffer: &LimineFramebuffer, color_values: Rgb) -> (r: Color)
        requires
            framebuffer.wf(),
        ensures
            r.0 == framebuffer.pack(framebuffer.clamp(color_values)),
    {
        let mut color_values = color_values;
        let red_max_size = channel_max_of(framebuffer.red_mask_size);
        let green_max_size = channel_max_of(framebuffer.green_mask_size);
        let blue_max_size = channel_max_of(framebuffer.blue_mask_size);
        if color_values.r > red_max_size {
            color_values.r = red_max_size;
        }
        if color_values.g > green_max_size {
            color_values.g = green_max_size;
        }
        if color_values.b > blue_max_size {
            color_values.b = blue_max_size;
        }
        Self::color_from_individual_bound_checked_consituents(framebuffer, color_values)
    }

    /// A new `Color`, or `ColorTooLarge` if a channel of `color_values` exceeds its mask.
    pub fn new_if_within_bounds(framebuffer: &LimineFramebuffer, color_values: Rgb) -> (r: Result<
        Color,
        ColorError,
    >)
        requires
            framebuffer.wf(),
        ensures
            framebuffer.fits(color_values) ==> r == Ok::<Color, ColorError>(
                Color(framebuffer.pack(color_values)),
            ),
            !framebuffer.fits(color_values) ==> r == Err::<Color, ColorError>(ColorError::ColorTooLarge),
    {
        let red_max_size = channel_max_of(framebuffer.red_mask_size);
        let green_max_size = channel_max_of(framebuffer.green_mask_size);
        let blue_max_size = channel_max_of(framebuffer.blue_mask_size);
        if color_values.r > red_max_size {
            return Err(ColorError::ColorTooLarge);
        }
        if color_values.g > green_max_size {
            return Err(ColorError::ColorTooLarge);
        }
        if color_values.b > blue_max_size {
            return Err(ColorError::ColorTooLarge);
        }
        Ok(Self::color_from_individual_bound_checked_consituents(framebuffer, color_values))
    }

    fn color_from_individual_bound_checked_consituents(
        framebuffer: &LimineFramebuffer,
        constituents: Rgb,
    ) -> (r: Color)
        requires
            framebuffer.wf(),
        ensures
            r.0 == framebuffer.pack(constituents),
    {
        Color(
            (constituents.r << (framebuffer.red_mask_shift as u32)) | (constituents.g
                << (framebuffer.green_mask_shift as u32)) | (constituents.b
                << (framebuffer.blue_mask_shift as u32)),
        )
    }
}

/// Slot indices of distinct pixels of a row-major grid are distinct.
pub proof fn lemma_slot_injective(s: int, x1: int, y1: int, x2: int, y2: int)
    requires
        0 <= x1 < s,
        0 <= x2 < s,
        y1 * s + x1 == y2 * s + x2,
    ensures
        x1 == x2,
        y1 == y2,
{
    lemma_fundamental_div_mod_converse(y1 * s + x1, s, y1, x1);
    lemma_fundamental_div_mod_converse(y2 * s + x2, s, y2, x2);
}

/// The slot of a pixel inside a grid of `h` rows of `s` slots lies inside the grid.
pub proof fn lemma_slot_in_range(s: int, h: int, x: int, y: int)
    requires
        0 <= x < s,
        0 <= y < h,
    ensures
        0 <= y * s + x < s * h,
{
    assert(0 <= y * s + x < s * h) by (nonlinear_arith)
        requires
            0 <= x < s,
            0 <= y < h,
    ;
}

impl LimineFramebuffer {
    /// Index of the slot of pixel `(x, y)`.
    pub fn get_pixel_offset(&self, x: u64, y: u64) -> (r: u64)
        requires
            self.wf(),
            self.slot(x as int, y as int) <= u64::MAX,
        ensures
            r == self.slot(x as int, y as int),
    {
        let stride = self.pitch / (self.bpp as u64 / 8);
        assert(stride == self.stride());
        assert(y * stride <= y * stride + x);
        y * stride + x
    }

    /// Writes `color` at `(x, y)`; a pixel off the surface is ignored.
    pub fn set_pixel_color(&mut self, x: u64, y: u64, color: Color)
        requires
            old(self).wf(),
        ensures
            final(self).wf(),
            old(self).in_bounds(x as int, y as int) ==> final(self).pixels@ == old(self).pixels@.update(
                old(self).slot(x as int, y as int),
                color.0,
            ),
            !old(self).in_bounds(x as int, y as int) ==> final(self).pixels@ == old(self).pixels@,
            old(self).in_bounds(x as int, y as int) ==> 0 <= old(self).slot(x as int, y as int)
                < old(self).pixels@.len(),
            final(self).same_geometry(*old(self)),
    {
        if x >= self.width || y >= self.height {
        } else {
            self.write_slot(x, y, color);
        }
    }

    /// Writes `color` at the in-bounds pixel `(x, y)`.
    fn write_slot(&mut self, x: u64, y: u64, color: Color)
        requires
            old(self).wf(),
            old(self).in_bounds(x as int, y as int),
        ensures
            0 <= old(self).slot(x as int, y as int) < old(self).pixels@.len(),
            final(self).pixels@ == old(self).pixels@.update(old(self).slot(x as int, y as int), color.0),
            final(self).memory_model == old(self).memory_model,
            final(self).width == old(self).width && final(self).height == old(self).height
                && final(self).pitch == old(self).pitch && final(self).bpp == old(self).bpp,
            final(self).red_mask_shift == old(self).red_mask_shift,
            final(self).green_mask_shift == old(self).green_mask_shift,
            final(self).blue_mask_shift == old(self).blue_mask_shift,
            final(self).red_mask_size == old(self).red_mask_size,
            final(self).green_mask_size == old(self).green_mask_size,
            final(self).blue_mask_size == old(self).blue_mask_size,
    {
        let stride = self.pitch / (self.bpp as u64 / 8);
        assert(stride == self.stride());
        proof {
            lemma_slot_in_range(stride as int, self.height as int, x as int, y as int);
        }
        let n = self.pixels.len();
        assert(y * stride <= y * stride + x);
        let i = (y * stride + x) as usize;
        self.pixels.set(i, color.0);
    }

    /// Sets every visible pixel to `color`.
    pub fn fill(&mut self, color: Color)
        requires
            old(self).wf(),
        ensures
            final(self).wf(),
            final(self).same_geometry(*old(self)),
            forall|x: int, y: int|
                old(self).in_bounds(x, y) ==> #[trigger] final(self).pixels@[old(self).slot(x, y)]
                    == color.0,
            forall|j: int|
                0 <= j < old(self).pixels@.len() && j % old(self).stride() >= old(self).width
                    ==> #[trigger] final(self).pixels@[j] == old(self).pixels@[j],
    {
        let ghost s = self.stride();
        let ghost pix0 = self.pixels@;
        let mut y: u64 = 0;
        while y < self.height
            invariant
                self.wf(),
                self.same_geometry(*old(self)),
                s == self.stride(),
                y <= self.height,
                self.pixels@.len() == pix0.len(),
                forall|x1: int, y1: int|
                    0 <= x1 < self.width && 0 <= y1 < y ==> #[trigger] self.pixels@[y1 * s + x1] == color.0,
                forall|j: int|
                    0 <= j < pix0.len() && (j % s >= self.width || j / s >= y) ==> #[trigger] self.pixels@[j]
                        == pix0[j],
            decreases self.height - y,
        {
            let mut x: u64 = 0;
            while x < self.width
                invariant
                    self.wf(),
                    self.same_geometry(*old(self)),
                    s == self.stride(),
                    y < self.height,
                    x <= self.width,
                    self.pixels@.len() == pix0.len(),
                    forall|x1: int, y1: int|
                        0 <= x1 < self.width && (0 <= y1 < y || (y1 == y && x1 < x)) ==> #[trigger] self.pixels@[y1
                            * s + x1] == color.0,
                    forall|j: int|
                        0 <= j < pix0.len() && (j % s >= self.width || j / s > y || (j / s == y && j % s
                            >= x)) ==> #[trigger] self.pixels@[j] == pix0[j],
                decreases self.width - x,
            {
                let ghost before = self.pixels@;
                self.write_slot(x, y, color);
                proof {
                    let k = y * s + x;
                    lemma_fundamental_div_mod_converse(k, s, y as int, x as int);
                    assert forall|x1: int, y1: int| 0 <= x1 < self.width && 0 <= y1 < self.height
                        implies 0 <= #[trigger] (y1 * s + x1) < pix0.len() by {
                        lemma_slot_in_range(s, self.height as int, x1, y1);
                    }
                    assert forall|x1: int, y1: int|
                        0 <= x1 < self.width && (0 <= y1 < y || (y1 == y && x1 < x + 1)) implies #[trigger] self.pixels@[y1
                            * s + x1] == color.0 by {
                        if y1 * s + x1 != k {
                            assert(before[y1 * s + x1] == color.0);
                        }
                    }
                    assert forall|j: int|
                        0 <= j < pix0.len() && (j % s >= self.width || j / s > y || (j / s == y && j % s
                            >= x + 1)) implies #[trigger] self.pixels@[j] == pix0[j] by {
                        assert(j != k);
                        assert(before[j] == pix0[j]);
                    }
                }
                x = x + 1;
            }
            y = y + 1;
        }
        assert forall|x1: int, y1: int| old(self).in_bounds(x1, y1)
            implies #[trigger] self.pixels@[old(self).slot(x1, y1)] == color.0 by {
            assert(self.pixels@[y1 * s + x1] == color.0);
        }
        assert forall|j: int|
            0 <= j < old(self).pixels@.len() && j % old(self).stride() >= old(self).width implies #[trigger] self.pixels@[j]
                == old(self).pixels@[j] by {
            assert(self.pixels@[j] == pix0[j]);
        }
    }

    /// Same dimensions, pitch, depth and channel layout as `other`.
    pub open spec fn same_geometry(&self, other: LimineFramebuffer) -> bool {
        &&& self.width == other.width
        &&& self.height == other.height
        &&& self.pitch == other.pitch
        &&& self.bpp == other.bpp
        &&& self.red_mask_size == other.red_mask_size
        &&& self.red_mask_shift == other.red_mask_shift
        &&& self.green_mask_size == other.green_mask_size
        &&& self.green_mask_shift == other.green_mask_shift
        &&& self.blue_mask_size == other.blue_mask_size
        &&& self.blue_mask_shift == other.blue_mask_shift
    }
}

impl LimineFramebuffer {
    /// Column of pixel `dx` of square `i` of the numeric indicator: ten squares to a row, a tenth
    /// of the width apart.
    pub open spec fn square_x(&self, i: int, dx: int) -> int {
        (self.width / 10) * (i % 10) + dx
    }

    /// Row of pixel `dy` of square `i` of the numeric indicator: rows a tenth of the height apart.
    pub open spec fn square_y(&self, i: int, dy: int) -> int {
        (self.height / 10) * (i / 10) + dy
    }

    /// Shows `num` as that many 50-pixel red squares, ten to a row, each row and column a tenth
    /// of the surface apart; a fallback indicator for when text cannot be drawn. Squares are
    /// clipped at the surface edge.
    pub fn display_num(&mut self, num: u32)
        requires
            old(self).wf(),
        ensures
            final(self).wf(),
            final(self).same_geometry(*old(self)),
            final(self).pixels@.len() == old(self).pixels@.len(),
            forall|i: int, dx: int, dy: int|
                0 <= i < num && 0 <= dx < 50 && 0 <= dy < 50 && old(self).in_bounds(
                    old(self).square_x(i, dx),
                    old(self).square_y(i, dy),
                ) ==> #[trigger] final(self).pixels@[old(self).slot(
                    old(self).square_x(i, dx),
                    old(self).square_y(i, dy),
                )] == old(self).pack(old(self).clamp(Rgb { r: 0xff, g: 0, b: 0 })),
            forall|j: int|
                0 <= j < old(self).pixels@.len() && #[trigger] final(self).pixels@[j] != old(self).pixels@[j]
                    ==> final(self).pixels@[j] == old(self).pack(old(self).clamp(Rgb { r: 0xff, g: 0, b: 0 })),
            num == 0 ==> final(self).pixels@ == old(self).pixels@,
    {
        let color = Color::new(self, Rgb { r: 0xff, g: 0x00, b: 0x00 });
        let ghost pix0 = self.pixels@;
        let ghost fb0 = *self;
        let squares_per_row: u64 = 10;
        let pixel_padding_x = self.width / squares_per_row;
        let pixel_padding_y = self.height / 10;
        let mut i: u32 = 0;
        while i < num
            invariant
                self.wf(),
                self.same_geometry(fb0),
                fb0.wf(),
                self.pixels@.len() == pix0.len(),
                pix0 == fb0.pixels@,
                color.0 == fb0.pack(fb0.clamp(Rgb { r: 0xff, g: 0, b: 0 })),
                pixel_padding_x == fb0.width / 10,
                pixel_padding_y == fb0.height / 10,
                squares_per_row == 10,
                i <= num,
                forall|i1: int, dx: int, dy: int|
                    0 <= i1 < i && 0 <= dx < 50 && 0 <= dy < 50 && fb0.in_bounds(
                        fb0.square_x(i1, dx),
                        fb0.square_y(i1, dy),
                    ) ==> #[trigger] self.pixels@[fb0.slot(fb0.square_x(i1, dx), fb0.square_y(i1, dy))]
                        == color.0,
                forall|j: int|
                    0 <= j < pix0.len() && #[trigger] self.pixels@[j] != pix0[j] ==> self.pixels@[j]
                        == color.0,
                num == 0 ==> self.pixels@ == pix0,
            decreases num - i,
        {
            let column = i as u64 % squares_per_row;
            assert(pixel_padding_x * column <= fb0.width) by (nonlinear_arith)
                requires
                    column < 10,
                    pixel_padding_x == fb0.width / 10,
            ;
            let x0 = pixel_padding_x * column;
            let row = (i as u64 / squares_per_row) as u128;
            assert(pixel_padding_y as u128 * row <= u128::MAX) by (nonlinear_arith)
                requires
                    pixel_padding_y <= u64::MAX,
                    row <= u32::MAX,
            ;
            let y_far = pixel_padding_y as u128 * row;
            let y0: u64 = if y_far < self.height as u128 {
                y_far as u64
            } else {
                self.height
            };
            assert(x0 == fb0.square_x(i as int, 0));
            assert(y_far == fb0.square_y(i as int, 0));
            let mut x: u64 = 0;
            while x < 50
                invariant
                    self.wf(),
                    self.same_geometry(fb0),
                    fb0.wf(),
                    self.pixels@.len() == pix0.len(),
                    pix0 == fb0.pixels@,
                    i < num,
                    x <= 50,
                    x0 <= fb0.width,
                    x0 == fb0.square_x(i as int, 0),
                    y_far == fb0.square_y(i as int, 0),
                    y_far < fb0.height ==> y0 == y_far,
                    y_far >= fb0.height ==> y0 == fb0.height,
                    forall|i1: int, dx: int, dy: int|
                        0 <= dx < 50 && 0 <= dy < 50 && (0 <= i1 < i || (i1 == i && dx < x))
                            && fb0.in_bounds(fb0.square_x(i1, dx), fb0.square_y(i1, dy))
                            ==> #[trigger] self.pixels@[fb0.slot(fb0.square_x(i1, dx), fb0.square_y(i1, dy))]
                            == color.0,
                    forall|j: int|
                        0 <= j < pix0.len() && #[trigger] self.pixels@[j] != pix0[j] ==> self.pixels@[j]
                            == color.0,
                decreases 50 - x,
            {
                let mut y: u64 = 0;
                while y < 50
                    invariant
                        self.wf(),
                        self.same_geometry(fb0),
                        fb0.wf(),
                        self.pixels@.len() == pix0.len(),
                        pix0 == fb0.pixels@,
                        i < num,
                        x < 50,
                        y <= 50,
                        x0 <= fb0.width,
                        x0 == fb0.square_x(i as int, 0),
                        y_far == fb0.square_y(i as int, 0),
                        y_far < fb0.height ==> y0 == y_far,
                        y_far >= fb0.height ==> y0 == fb0.height,
                        forall|i1: int, dx: int, dy: int|
                            0 <= dx < 50 && 0 <= dy < 50 && (0 <= i1 < i || (i1 == i && (dx < x || (dx
                                == x && dy < y)))) && fb0.in_bounds(fb0.square_x(i1, dx), fb0.square_y(i1, dy))
                                ==> #[trigger] self.pixels@[fb0.slot(
                                fb0.square_x(i1, dx),
                                fb0.square_y(i1, dy),
                            )] == color.0,
                        forall|j: int|
                            0 <= j < pix0.len() && #[trigger] self.pixels@[j] != pix0[j]
                                ==> self.pixels@[j] == color.0,
                    decreases 50 - y,
                {
                    let ghost before = self.pixels@;
                    if y0 <= u64::MAX - y && x0 <= u64::MAX - x {
                        self.set_pixel_color(x + x0, y + y0, color);
                        proof {
                            assert forall|j: int|
                                0 <= j < pix0.len() && #[trigger] self.pixels@[j] != pix0[j]
                                    implies self.pixels@[j] == color.0 by {
                                if self.pixels@[j] != before[j] {
                                } else {
                                    assert(before[j] != pix0[j]);
                                }
                            }
                            assert forall|i1: int, dx: int, dy: int|
                                0 <= dx < 50 && 0 <= dy < 50 && (0 <= i1 < i || (i1 == i && (dx < x || (
                                dx == x && dy < y + 1)))) && fb0.in_bounds(
                                    fb0.square_x(i1, dx),
                                    fb0.square_y(i1, dy),
                                ) implies #[trigger] self.pixels@[fb0.slot(
                                fb0.square_x(i1, dx),
                                fb0.square_y(i1, dy),
                            )] == color.0 by {
                                let px = fb0.square_x(i1, dx);
                                let py = fb0.square_y(i1, dy);
                                lemma_slot_in_range(fb0.stride(), fb0.height as int, px, py);
                                if i1 == i && dx == x && dy == y {
                                    assert(fb0.square_x(i1, dx) == x0 + x);
                                    assert(fb0.square_y(i1, dy) == y_far + y);
                                    assert(y0 == y_far);
                                } else {
                                    assert(before[fb0.slot(px, py)] == color.0);
                                }
                            }
                        }
                    } else {
                        assert forall|i1: int, dx: int, dy: int|
                            0 <= dx < 50 && 0 <= dy < 50 && (0 <= i1 < i || (i1 == i && (dx < x || (dx
                                == x && dy < y + 1)))) && fb0.in_bounds(fb0.square_x(i1, dx), fb0.square_y(i1, dy))
                                implies #[trigger] self.pixels@[fb0.slot(
                            fb0.square_x(i1, dx),
                            fb0.square_y(i1, dy),
                        )] == color.0 by {
                            if i1 == i && dx == x && dy == y {
                                assert(fb0.square_x(i1, dx) == x0 + x);
                                assert(fb0.square_y(i1, dy) == y_far + y);
                            }
                        }
                    }
                    y = y + 1;
                }
                x = x + 1;
            }
            i = i + 1;
        }
    }
}

} // verus!
