//! Linear framebuffer, drawing the 80x25 console cell grid as 8x16 glyphs
//! scaled by the largest integer factor that fits the screen.
use vstd::prelude::*;

verus! {

#[derive(Clone, Copy, Debug, PartialEq, Eq, Structural)]
pub enum PixelOrder {
    Rgb,
    Bgr,
}

#[derive(Clone, Copy, Debug)]
pub struct FramebufferInfo {
    /// Physical address of the first pixel.
    pub address: u64,
    pub size: usize,
    pub width: usize,
    pub height: usize,
    /// Pixels per scanline, at least `width`.
    pub stride: usize,
    pub order: PixelOrder,
}

impl FramebufferInfo {
    pub open spec fn is_valid(self) -> bool {
        &&& self.address != 0
        &&& self.address % 4 == 0
        &&& self.width != 0
        &&& self.height != 0
        &&& self.stride >= self.width
        &&& self.stride * self.height * 4 <= self.size
    }

    pub fn valid(&self) -> (valid: bool)
        ensures
            valid == self.is_valid(),
    {
        if self.address == 0 || self.address % 4 != 0 || self.width == 0 || self.height == 0
            || self.stride < self.width {
            return false;
        }
        match self.stride.checked_mul(self.height) {
            Some(pixels) => match pixels.checked_mul(4) {
                Some(bytes) => bytes <= self.size,
                None => false,
            },
            None => {
                assert(self.stride * self.height * 4 > self.size) by (nonlinear_arith)
                    requires
                        self.stride * self.height > usize::MAX,
                        self.size <= usize::MAX,
                ;
                false
            },
        }
    }
}

pub const COLUMNS: usize = 80;
pub const ROWS: usize = 25;
pub const GLYPH_WIDTH: usize = 8;
pub const GLYPH_HEIGHT: usize = 16;

/// The classic 16-color text-mode palette as 0xRRGGBB.
pub open spec fn palette(color: int) -> u32 {
    let level = if color >= 8 {
        0x55u32
    } else {
        0u32
    };
    if color == 6 {
        0xaa5500
    } else {
        let blue = if color % 2 == 1 {
            level + 0xaa
        } else {
            level as int
        };
        let green = if color / 2 % 2 == 1 {
            level + 0xaa
        } else {
            level as int
        };
        let red = if color / 4 % 2 == 1 {
            level + 0xaa
        } else {
            level as int
        };
        (red * 0x10000 + green * 0x100 + blue) as u32
    }
}

pub fn palette_color(color: u8) -> (rgb: u32)
    requires
        color < 16,
    ensures
        rgb == palette(color as int),
{
    match color {
        0 => 0x000000,
        1 => 0x0000aa,
        2 => 0x00aa00,
        3 => 0x00aaaa,
        4 => 0xaa0000,
        5 => 0xaa00aa,
        6 => 0xaa5500,
        7 => 0xaaaaaa,
        8 => 0x555555,
        9 => 0x5555ff,
        10 => 0x55ff55,
        11 => 0x55ffff,
        12 => 0xff5555,
        13 => 0xff55ff,
        14 => 0xffff55,
        _ => 0xffffff,
    }
}

/// A color as the pixels of an order hold it.
pub open spec fn encoded(order: PixelOrder, rgb: u32) -> u32 {
    match order {
        PixelOrder::Bgr => rgb,
        PixelOrder::Rgb => (rgb / 0x10000 % 0x100 + rgb / 0x100 % 0x100 * 0x100 + rgb % 0x100
            * 0x10000) as u32,
    }
}

/// The factor by which glyphs are enlarged.
pub open spec fn scale_of(width: int, height: int) -> int {
    let across = width / 640;
    let down = height / 400;
    let fit = if across < down {
        across
    } else {
        down
    };
    if fit < 1 {
        1
    } else {
        fit
    }
}

/// The space left of (or above) the cell grid when it is centered.
pub open spec fn margin(extent: int, grid: int) -> int {
    if extent >= grid {
        (extent - grid) / 2
    } else {
        0
    }
}

pub struct Framebuffer {
    pub info: FramebufferInfo,
    pub scale: usize,
    pub origin_x: usize,
    pub origin_y: usize,
}

/// Whether the glyph row `bits` has its pixel `n` from the left lit.
pub open spec fn is_lit(bits: u8, n: u8) -> bool {
    bits & (1u8 << n) != 0
}

/// Row `pixel_y` and column `pixel_x` of the pixel at an index.
pub open spec fn pixel_y(index: int, stride: int) -> int {
    index / stride
}

pub open spec fn pixel_x(index: int, stride: int) -> int {
    index % stride
}

impl Framebuffer {
    pub open spec fn wf(&self) -> bool {
        &&& self.info.is_valid()
        &&& self.scale == scale_of(self.info.width as int, self.info.height as int)
        &&& self.origin_x == margin(self.info.width as int, 640 * self.scale)
        &&& self.origin_y == margin(self.info.height as int, 400 * self.scale)
    }

    /// Whether a pixel of the screen is in a rectangle.
    pub open spec fn covers(&self, index: int, x: int, y: int, width: int, height: int) -> bool {
        let row = pixel_y(index, self.info.stride as int);
        let column = pixel_x(index, self.info.stride as int);
        &&& y <= row < y + height
        &&& row < self.info.height
        &&& x <= column < x + width
        &&& column < self.info.width
    }

    pub open spec fn left(&self, column: int) -> int {
        self.origin_x + column * 8 * self.scale
    }

    pub open spec fn top(&self, row: int) -> int {
        self.origin_y + row * 16 * self.scale
    }

    /// Whether a pixel of the screen belongs to a console cell.
    pub open spec fn in_cell(&self, index: int, column: int, row: int) -> bool {
        self.covers(
            index,
            self.left(column),
            self.top(row),
            8 * self.scale as int,
            16 * self.scale as int,
        )
    }

    /// What a pixel of a cell shows: each of the glyph's eight rows is two
    /// enlarged pixels high, each of its bits one wide.
    pub open spec fn cell_pixel(
        &self,
        index: int,
        column: int,
        row: int,
        glyph: Seq<u8>,
        color: u8,
    ) -> u32 {
        let y = pixel_y(index, self.info.stride as int) - self.top(row);
        let x = pixel_x(index, self.info.stride as int) - self.left(column);
        let lit = is_lit(glyph[y / self.scale as int / 2], (x / self.scale as int) as u8);
        encoded(
            self.info.order,
            palette(
                if lit {
                    color % 16
                } else {
                    color / 16
                } as int,
            ),
        )
    }

    fn encode(&self, rgb: u32) -> (pixel: u32)
        ensures
            pixel == encoded(self.info.order, rgb),
    {
        match self.info.order {
            PixelOrder::Bgr => rgb,
            PixelOrder::Rgb => rgb / 0x10000 % 0x100 + rgb / 0x100 % 0x100 * 0x100 + rgb % 0x100
                * 0x10000,
        }
    }

    pub fn fill(
        &self,
        pixels: &mut [u32],
        x: usize,
        y: usize,
        width: usize,
        height: usize,
        rgb: u32,
    )
        requires
            self.info.is_valid(),
            old(pixels)@.len() >= self.info.stride * self.info.height,
            x + width <= usize::MAX,
            y + height <= usize::MAX,
        ensures
            final(pixels)@.len() == old(pixels)@.len(),
            forall|i: int|
                0 <= i < final(pixels)@.len() ==> #[trigger] final(pixels)@[i] == if self.covers(
                    i,
                    x as int,
                    y as int,
                    width as int,
                    height as int,
                ) {
                    encoded(self.info.order, rgb)
                } else {
                    old(pixels)@[i]
                },
    {
        let pixel: u32 = self.encode(rgb);
        let stride: usize = self.info.stride;
        let bottom: usize = if y + height < self.info.height {
            y + height
        } else {
            self.info.height
        };
        let right: usize = if x + width < self.info.width {
            x + width
        } else {
            self.info.width
        };
        let mut row: usize = y;
        while row < bottom
            invariant
                self.info.is_valid(),
                stride == self.info.stride,
                pixel == encoded(self.info.order, rgb),
                x + width <= usize::MAX,
                y + height <= usize::MAX,
                bottom <= self.info.height,
                bottom == if y + height < self.info.height {
                    y + height
                } else {
                    self.info.height as int
                },
                right == if x + width < self.info.width {
                    x + width
                } else {
                    self.info.width as int
                },
                y <= row,
                row <= bottom || row == y,
                pixels@.len() == old(pixels)@.len(),
                pixels@.len() >= self.info.stride * self.info.height,
                forall|i: int|
                    0 <= i < pixels@.len() ==> #[trigger] pixels@[i] == if self.covers(
                        i,
                        x as int,
                        y as int,
                        width as int,
                        row - y,
                    ) {
                        pixel
                    } else {
                        old(pixels)@[i]
                    },
            decreases bottom - row,
        {
            let ghost before = pixels@;
            proof {
                lemma_row_fits(row as int, stride as int, self.info.height as int);
            }
            let line: usize = row * stride;
            let mut column: usize = x;
            while column < right
                invariant
                    self.info.is_valid(),
                    stride == self.info.stride,
                    x + width <= usize::MAX,
                    right == if x + width < self.info.width {
                        x + width
                    } else {
                        self.info.width as int
                    },
                    row < self.info.height,
                    line == row * stride,
                    line + stride <= stride * self.info.height,
                    line + stride <= usize::MAX,
                    x <= column,
                    column <= right || column == x,
                    pixels@.len() == before.len(),
                    pixels@.len() >= stride * self.info.height,
                    forall|i: int|
                        0 <= i < pixels@.len() ==> #[trigger] pixels@[i] == if pixel_y(
                            i,
                            stride as int,
                        ) == row && x <= pixel_x(i, stride as int) < column {
                            pixel
                        } else {
                            before[i]
                        },
                decreases right - column,
            {
                proof {
                    lemma_index(row as int, column as int, stride as int);
                    assert forall|i: int|
                        pixel_y(i, stride as int) == row && pixel_x(i, stride as int)
                            == column implies i == line + column by {
                        lemma_index_back(i, stride as int);
                    }
                }
                pixels[line + column] = pixel;
                column += 1;
            }
            row += 1;
        }
    }

    /// Draw the glyph in a console cell; `color` is a text-mode attribute byte.
    pub fn draw_glyph(
        &self,
        pixels: &mut [u32],
        column: usize,
        row: usize,
        glyph: [u8; 8],
        color: u8,
    )
        requires
            self.wf(),
            old(pixels)@.len() >= self.info.stride * self.info.height,
        ensures
            final(pixels)@.len() == old(pixels)@.len(),
            forall|i: int|
                0 <= i < final(pixels)@.len() ==> #[trigger] final(pixels)@[i] == if column < 80
                    && row < 25 && self.in_cell(i, column as int, row as int) {
                    self.cell_pixel(i, column as int, row as int, glyph@, color)
                } else {
                    old(pixels)@[i]
                },
    {
        if column >= COLUMNS || row >= ROWS {
            return;
        }
        proof {
            lemma_grid_fits(*self, column as int, row as int);
        }
        let foreground: u32 = self.encode(palette_color(color % 16));
        let background: u32 = self.encode(palette_color(color / 16));
        let scale: usize = self.scale;
        let stride: usize = self.info.stride;
        let left: usize = self.origin_x + column * GLYPH_WIDTH * scale;
        let top: usize = self.origin_y + row * GLYPH_HEIGHT * scale;
        let tall: usize = GLYPH_HEIGHT * scale;
        let wide: usize = GLYPH_WIDTH * scale;
        let mut y: usize = 0;
        while y < tall && y < self.info.height && top < self.info.height - y
            invariant
                self.wf(),
                column < 80,
                row < 25,
                stride == self.info.stride,
                scale == self.scale,
                scale >= 1,
                left == self.left(column as int),
                top == self.top(row as int),
                tall == 16 * scale,
                wide == 8 * scale,
                foreground == encoded(self.info.order, palette((color % 16) as int)),
                background == encoded(self.info.order, palette((color / 16) as int)),
                y <= tall,
                pixels@.len() == old(pixels)@.len(),
                pixels@.len() >= stride * self.info.height,
                forall|i: int|
                    0 <= i < pixels@.len() ==> #[trigger] pixels@[i] == if self.in_cell(
                        i,
                        column as int,
                        row as int,
                    ) && pixel_y(i, stride as int) < top + y {
                        self.cell_pixel(i, column as int, row as int, glyph@, color)
                    } else {
                        old(pixels)@[i]
                    },
            decreases tall - y,
        {
            let ghost before = pixels@;
            let line: usize = top + y;
            proof {
                lemma_row_fits(line as int, stride as int, self.info.height as int);
                lemma_scaled(y as int, scale as int, 16);
            }
            let bits: u8 = glyph[y / scale / 2];
            let base: usize = line * stride;
            let mut x: usize = 0;
            while x < wide && x < self.info.width && left < self.info.width - x
                invariant
                    self.wf(),
                    column < 80,
                    row < 25,
                    stride == self.info.stride,
                    scale == self.scale,
                    scale >= 1,
                    left == self.left(column as int),
                    top == self.top(row as int),
                    wide == 8 * scale,
                    tall == 16 * scale,
                    foreground == encoded(self.info.order, palette((color % 16) as int)),
                    background == encoded(self.info.order, palette((color / 16) as int)),
                    y < tall,
                    line == top + y,
                    line < self.info.height,
                    base == line * stride,
                    base + stride <= stride * self.info.height,
                    base + stride <= usize::MAX,
                    0 <= y as int / scale as int / 2 < 8,
                    bits == glyph@[y as int / scale as int / 2],
                    x <= wide,
                    pixels@.len() == before.len(),
                    pixels@.len() >= stride * self.info.height,
                    forall|i: int|
                        0 <= i < pixels@.len() ==> #[trigger] pixels@[i] == if pixel_y(
                            i,
                            stride as int,
                        ) == line && left <= pixel_x(i, stride as int) < left + x && pixel_x(
                            i,
                            stride as int,
                        ) < self.info.width {
                            self.cell_pixel(i, column as int, row as int, glyph@, color)
                        } else {
                            before[i]
                        },
                decreases wide - x,
            {
                let across: usize = left + x;
                proof {
                    lemma_scaled(x as int, scale as int, 8);
                    lemma_index(line as int, across as int, stride as int);
                    assert forall|i: int|
                        pixel_y(i, stride as int) == line && pixel_x(i, stride as int)
                            == across implies i == base + across by {
                        lemma_index_back(i, stride as int);
                    }
                }
                let n: u8 = (x / scale) as u8;
                let lit: bool = bits & (1u8 << n) != 0;
                pixels[base + across] = if lit {
                    foreground
                } else {
                    background
                };
                x += 1;
            }
            y += 1;
            proof {
                assert forall|i: int| 0 <= i < pixels@.len() implies #[trigger] pixels@[i]
                    == if self.in_cell(i, column as int, row as int) && pixel_y(i, stride as int)
                    < top + y {
                    self.cell_pixel(i, column as int, row as int, glyph@, color)
                } else {
                    old(pixels)@[i]
                } by {
                    assert(before[i] == before[i]);
                }
            }
        }
    }

    /// Draw one console cell; `color` is a text-mode attribute byte.
    pub fn draw_cell(
        &self,
        pixels: &mut [u32],
        column: usize,
        row: usize,
        character: u8,
        color: u8,
    )
        requires
            self.wf(),
            old(pixels)@.len() >= self.info.stride * self.info.height,
        ensures
            final(pixels)@.len() == old(pixels)@.len(),
            forall|i: int|
                0 <= i < final(pixels)@.len() ==> #[trigger] final(pixels)@[i] == if column < 80
                    && row < 25 && self.in_cell(i, column as int, row as int) {
                    self.cell_pixel(i, column as int, row as int, glyph_rows(character), color)
                } else {
                    old(pixels)@[i]
                },
    {
        self.draw_glyph(pixels, column, row, glyph(character), color);
    }
}

/// Take the framebuffer into use and clear it. `pixels` are its pixels.
pub fn init(info: FramebufferInfo, pixels: &mut [u32]) -> (framebuffer: Framebuffer)
    requires
        info.is_valid(),
        old(pixels)@.len() >= info.stride * info.height,
    ensures
        framebuffer.wf(),
        framebuffer.info == info,
        final(pixels)@.len() == old(pixels)@.len(),
        forall|i: int|
            0 <= i < final(pixels)@.len() ==> #[trigger] final(pixels)@[i] == if framebuffer.covers(
                i,
                0,
                0,
                info.width as int,
                info.height as int,
            ) {
                0
            } else {
                old(pixels)@[i]
            },
{
    let across: usize = info.width / (COLUMNS * GLYPH_WIDTH);
    let down: usize = info.height / (ROWS * GLYPH_HEIGHT);
    let fit: usize = if across < down {
        across
    } else {
        down
    };
    let scale: usize = if fit < 1 {
        1
    } else {
        fit
    };
    let grid_width: usize = COLUMNS * GLYPH_WIDTH * scale;
    let grid_height: usize = ROWS * GLYPH_HEIGHT * scale;
    let framebuffer = Framebuffer {
        info,
        scale,
        origin_x: if info.width >= grid_width {
            (info.width - grid_width) / 2
        } else {
            0
        },
        origin_y: if info.height >= grid_height {
            (info.height - grid_height) / 2
        } else {
            0
        },
    };
    framebuffer.fill(pixels, 0, 0, info.width, info.height, 0);
    framebuffer
}

pub fn available(framebuffer: &Option<Framebuffer>) -> (available: bool)
    ensures
        available == (framebuffer is Some),
{
    framebuffer.is_some()
}

/// Draw one console cell if there is a framebuffer to draw on.
pub fn draw_cell(
    framebuffer: &Option<Framebuffer>,
    pixels: &mut [u32],
    column: usize,
    row: usize,
    character: u8,
    color: u8,
)
    requires
        framebuffer matches Some(f) ==> f.wf() && old(pixels)@.len() >= f.info.stride
            * f.info.height,
    ensures
        final(pixels)@.len() == old(pixels)@.len(),
        framebuffer is None ==> final(pixels)@ == old(pixels)@,
        framebuffer matches Some(f) ==> forall|i: int|
            0 <= i < final(pixels)@.len() ==> #[trigger] final(pixels)@[i] == if column < 80 && row
                < 25 && f.in_cell(i, column as int, row as int) {
                f.cell_pixel(i, column as int, row as int, glyph_rows(character), color)
            } else {
                old(pixels)@[i]
            },
{
    if let Some(f) = framebuffer {
        f.draw_cell(pixels, column, row, character, color);
    }
}

/// The rows of an ASCII character in the font of the `font8x8` crate.
pub uninterp spec fn font_rows(character: u8) -> Seq<u8>;

/// The entry of `font8x8::legacy::BASIC_LEGACY` for a character: the table has
/// one entry of eight rows for each of the 128 ASCII characters.
#[verifier::external_body]
fn font_glyph(character: u8) -> (rows: [u8; 8])
    requires
        character < 128,
    ensures
        rows@ == font_rows(character),
{
    font8x8::legacy::BASIC_LEGACY[usize::from(character)]
}

/// The eight rows of a character's glyph, least significant bit leftmost. The
/// bytes outside ASCII that the console uses have shapes of their own, and
/// what is left shows nothing.
pub open spec fn glyph_rows(character: u8) -> Seq<u8> {
    if 0x20 <= character <= 0x7e {
        font_rows(character)
    } else if character == 0xfa {
        seq![0, 0, 0, 0x18, 0x18, 0, 0, 0]
    } else if character == 0xfe {
        seq![0, 0, 0x3c, 0x3c, 0x3c, 0x3c, 0, 0]
    } else {
        seq![0, 0, 0, 0, 0, 0, 0, 0]
    }
}

pub fn glyph(character: u8) -> (rows: [u8; 8])
    ensures
        rows@ == glyph_rows(character),
{
    if character >= 0x20 && character <= 0x7e {
        return font_glyph(character);
    }
    let rows: [u8; 8] = if character == 0xfa {
        [0, 0, 0, 0x18, 0x18, 0, 0, 0]
    } else if character == 0xfe {
        [0, 0, 0x3c, 0x3c, 0x3c, 0x3c, 0, 0]
    } else {
        [0, 0, 0, 0, 0, 0, 0, 0]
    };
    assert(rows@ =~= glyph_rows(character));
    rows
}

proof fn lemma_row_fits(row: int, stride: int, height: int)
    requires
        0 <= row < height,
        stride >= 0,
    ensures
        0 <= row * stride,
        row * stride + stride <= stride * height,
{
    assert(0 <= row * stride && row * stride + stride <= stride * height) by (nonlinear_arith)
        requires
            0 <= row < height,
            stride >= 0,
    ;
}

proof fn lemma_index(row: int, column: int, stride: int)
    requires
        0 <= column < stride,
        0 <= row,
    ensures
        pixel_y(row * stride + column, stride) == row,
        pixel_x(row * stride + column, stride) == column,
{
    assert((row * stride + column) / stride == row && (row * stride + column) % stride == column)
        by (nonlinear_arith)
        requires
            0 <= column < stride,
            0 <= row,
    ;
}

proof fn lemma_index_back(index: int, stride: int)
    requires
        stride > 0,
    ensures
        index == pixel_y(index, stride) * stride + pixel_x(index, stride),
{
    assert(index == index / stride * stride + index % stride) by (nonlinear_arith)
        requires
            stride > 0,
    ;
}

proof fn lemma_scaled(n: int, scale: int, count: int)
    requires
        scale >= 1,
        0 <= n < count * scale,
        count > 0,
    ensures
        0 <= n / scale < count,
{
    assert(0 <= n / scale < count) by (nonlinear_arith)
        requires
            scale >= 1,
            0 <= n < count * scale,
    ;
}

proof fn lemma_grid_fits(framebuffer: Framebuffer, column: int, row: int)
    requires
        framebuffer.wf(),
        0 <= column < 80,
        0 <= row < 25,
    ensures
        framebuffer.scale >= 1,
        0 <= column * 8 * framebuffer.scale <= usize::MAX,
        0 <= row * 16 * framebuffer.scale <= usize::MAX,
        framebuffer.left(column) + 8 * framebuffer.scale <= usize::MAX,
        framebuffer.top(row) + 16 * framebuffer.scale <= usize::MAX,
{
    let scale = framebuffer.scale as int;
    assert(0 <= column * 8 * scale <= 632 * scale) by (nonlinear_arith)
        requires
            0 <= column <= 79,
            scale >= 1,
    ;
    assert(0 <= row * 16 * scale <= 384 * scale) by (nonlinear_arith)
        requires
            0 <= row <= 24,
            scale >= 1,
    ;
}

/// Glyphs are enlarged by the largest factor with which the whole grid fits the
/// screen; where even the plain grid does not fit, they are not enlarged. The
/// grid is centered.
pub proof fn lemma_largest_scale(framebuffer: Framebuffer, factor: int)
    requires
        framebuffer.wf(),
        factor > framebuffer.scale,
    ensures
        factor * 640 > framebuffer.info.width || factor * 400 > framebuffer.info.height,
        framebuffer.scale > 1 ==> {
            &&& framebuffer.scale * 640 <= framebuffer.info.width
            &&& framebuffer.scale * 400 <= framebuffer.info.height
        },
        framebuffer.scale * 640 <= framebuffer.info.width ==> {
            let right = framebuffer.info.width - framebuffer.left(80);
            0 <= right - framebuffer.origin_x <= 1
        },
{
}

/// No pixel belongs to two cells.
pub proof fn lemma_cells_apart(
    framebuffer: Framebuffer,
    index: int,
    column: int,
    row: int,
    other_column: int,
    other_row: int,
)
    requires
        framebuffer.wf(),
        framebuffer.in_cell(index, column, row),
        framebuffer.in_cell(index, other_column, other_row),
    ensures
        column == other_column,
        row == other_row,
{
    let scale = framebuffer.scale as int;
    let x = pixel_x(index, framebuffer.info.stride as int) - framebuffer.origin_x;
    let y = pixel_y(index, framebuffer.info.stride as int) - framebuffer.origin_y;
    assert(column == other_column) by (nonlinear_arith)
        requires
            scale >= 1,
            column * 8 * scale <= x < column * 8 * scale + 8 * scale,
            other_column * 8 * scale <= x < other_column * 8 * scale + 8 * scale,
    ;
    assert(row == other_row) by (nonlinear_arith)
        requires
            scale >= 1,
            row * 16 * scale <= y < row * 16 * scale + 16 * scale,
            other_row * 16 * scale <= y < other_row * 16 * scale + 16 * scale,
    ;
}

} // verus!
