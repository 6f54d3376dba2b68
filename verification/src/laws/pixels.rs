//! How cells of text become pixels.
use vstd::prelude::*;

use crate::framebuffer::{
    encoded, is_lit, margin, palette, pixel_x, pixel_y, scale_of, Framebuffer, FramebufferInfo,
    PixelOrder,
};

verus! {

/// The weight of a bit in a row of a glyph: the leftmost pixel weighs least.
pub open spec fn weight(n: int) -> int {
    if n == 0 {
        1
    } else if n == 1 {
        2
    } else if n == 2 {
        4
    } else if n == 3 {
        8
    } else if n == 4 {
        16
    } else if n == 5 {
        32
    } else if n == 6 {
        64
    } else {
        128
    }
}

proof fn lemma_bit(bits: u8, n: u8)
    requires
        n < 8,
    ensures
        is_lit(bits, n) == (bits as int / weight(n as int) % 2 == 1),
{
    assert((bits & (1u8 << 0u8) != 0) == (bits % 2 == 1) && (bits & (1u8 << 1u8) != 0) == (bits / 2
        % 2 == 1) && (bits & (1u8 << 2u8) != 0) == (bits / 4 % 2 == 1) && (bits & (1u8 << 3u8)
        != 0) == (bits / 8 % 2 == 1) && (bits & (1u8 << 4u8) != 0) == (bits / 16 % 2 == 1) && (bits
        & (1u8 << 5u8) != 0) == (bits / 32 % 2 == 1) && (bits & (1u8 << 6u8) != 0) == (bits / 64
        % 2 == 1) && (bits & (1u8 << 7u8) != 0) == (bits / 128 % 2 == 1)) by (bit_vector);
}

/// A pixel that lies `x` right of and `y` below the corner of a cell.
pub open spec fn pixel_index(fb: &Framebuffer, column: int, row: int, x: int, y: int) -> int {
    (fb.origin_y + row * 16 * fb.scale + y) * fb.info.stride + fb.origin_x + column * 8 * fb.scale
        + x
}

proof fn lemma_coordinates(line: int, place: int, stride: int)
    requires
        0 <= place < stride,
        0 <= line,
    ensures
        pixel_y(line * stride + place, stride) == line,
        pixel_x(line * stride + place, stride) == place,
{
    vstd::arithmetic::div_mod::lemma_fundamental_div_mod_converse(
        line * stride + place,
        stride,
        line,
        place,
    );
}

/// The least significant bit of a glyph's row is its leftmost pixel, the first
/// row is on top, and each bit is as wide as the scale and twice as high: a pixel
/// of a cell has the color in the low half of the color byte exactly where its
/// bit is set, and the color in the high half elsewhere.
pub proof fn lemma_glyph_bits(
    fb: &Framebuffer,
    column: int,
    row: int,
    glyph: Seq<u8>,
    color: u8,
    x: int,
    y: int,
)
    requires
        fb.wf(),
        0 <= column,
        0 <= row,
        glyph.len() == 8,
        0 <= x < 8 * fb.scale,
        0 <= y < 16 * fb.scale,
        fb.origin_x + column * 8 * fb.scale + x < fb.info.width,
        fb.origin_y + row * 16 * fb.scale + y < fb.info.height,
    ensures
        ({
            let index = pixel_index(fb, column, row, x, y);
            let bits = glyph[y / (2 * fb.scale as int)];
            let lit = bits as int / weight(x / fb.scale as int) % 2 == 1;
            &&& fb.in_cell(index, column, row)
            &&& lit ==> fb.cell_pixel(index, column, row, glyph, color) == encoded(
                fb.info.order,
                palette(color as int % 16),
            )
            &&& !lit ==> fb.cell_pixel(index, column, row, glyph, color) == encoded(
                fb.info.order,
                palette(color as int / 16),
            )
        }),
{
    let scale = fb.scale as int;
    let line = fb.top(row) + y;
    let place = fb.left(column) + x;
    assert(column * 8 * scale >= 0 && row * 16 * scale >= 0) by (nonlinear_arith)
        requires
            column >= 0,
            row >= 0,
            scale >= 1,
    ;
    lemma_coordinates(line, place, fb.info.stride as int);
    assert(pixel_index(fb, column, row, x, y) == line * fb.info.stride + place);
    let n = x / scale;
    assert(0 <= n < 8) by (nonlinear_arith)
        requires
            n == x / scale,
            0 <= x < 8 * scale,
            scale >= 1,
    ;
    assert(0 <= y / scale / 2 < 8 && y / scale / 2 == y / (2 * scale)) by {
        vstd::arithmetic::div_mod::lemma_div_denominator(y, scale, 2);
        assert(scale * 2 == 2 * scale);
        assert(0 <= y / scale < 16) by (nonlinear_arith)
            requires
                0 <= y < 16 * scale,
                scale >= 1,
        ;
    }
    lemma_bit(glyph[y / scale / 2], n as u8);
}

/// In a row that holds only its lowest bit, only the leftmost pixel is lit; a
/// row doubled in value is moved one pixel to the right.
pub proof fn lemma_rows_read_left_to_right(bits: u8, n: u8)
    requires
        n < 7,
        bits < 128,
    ensures
        is_lit(1, n) == (n == 0),
        is_lit((2 * bits) as u8, (n + 1) as u8) == is_lit(bits, n),
        !is_lit((2 * bits) as u8, 0),
{
    assert((1u8 & (1u8 << n) != 0) == (n == 0)) by (bit_vector)
        requires
            n < 7,
    ;
    assert((((2 * bits) as u8) & (1u8 << ((n + 1) as u8)) != 0) == (bits & (1u8 << n) != 0) && ((2
        * bits) as u8) & (1u8 << 0u8) == 0) by (bit_vector)
        requires
            n < 7,
            bits < 128,
    ;
}

/// The pixels that belong to a cell are those of its rectangle.
pub proof fn lemma_cell_extent(fb: &Framebuffer, column: int, row: int, line: int, place: int)
    requires
        fb.wf(),
        0 <= line < fb.info.height,
        0 <= place < fb.info.width,
    ensures
        fb.in_cell(line * fb.info.stride + place, column, row) == {
            &&& 0 <= place - (fb.origin_x + column * 8 * fb.scale) < 8 * fb.scale
            &&& 0 <= line - (fb.origin_y + row * 16 * fb.scale) < 16 * fb.scale
        },
{
    lemma_coordinates(line, place, fb.info.stride as int);
}

/// The grid of eighty by twenty-five cells stands in the middle of a screen on
/// which it fits, and begins at the corner of one on which it does not.
pub proof fn lemma_grid_is_centered(width: int, height: int)
    requires
        width > 0,
        height > 0,
    ensures
        ({
            let scale = scale_of(width, height);
            let left = margin(width, 640 * scale);
            let top = margin(height, 400 * scale);
            let right = width - 80 * (8 * scale) - left;
            let bottom = height - 25 * (16 * scale) - top;
            &&& scale >= 1 && left >= 0 && top >= 0
            &&& right >= 0 ==> right == left || right == left + 1
            &&& right < 0 ==> left == 0
            &&& bottom >= 0 ==> bottom == top || bottom == top + 1
            &&& bottom < 0 ==> top == 0
            &&& scale > 1 ==> right >= 0 && bottom >= 0
            &&& 640 * (scale + 1) > width || 400 * (scale + 1) > height
        }),
{
}

/// A pixel holds a color's blue, green and red in its three low bytes, from the
/// lowest up or from the third down.
pub proof fn lemma_pixel_orders(red: u8, green: u8, blue: u8)
    ensures
        ({
            let rgb = (red * 65536 + green * 256 + blue) as u32;
            &&& encoded(PixelOrder::Bgr, rgb) == red * 65536 + green * 256 + blue
            &&& encoded(PixelOrder::Rgb, rgb) == blue * 65536 + green * 256 + red
        }),
{
}

/// Each bit of a color number turns on one of blue, green and red, and the fourth
/// makes all three brighter; only brown has half of its green.
pub proof fn lemma_palette(color: int)
    requires
        0 <= color < 16,
    ensures
        ({
            let rgb = palette(color) as int;
            let blue = rgb % 256;
            let green = rgb / 256 % 256;
            let red = rgb / 65536;
            let bright: int = if color >= 8 {
                85
            } else {
                0
            };
            &&& 0 <= red < 256
            &&& color == 6 ==> red == 170 && green == 85 && blue == 0
            &&& color != 6 ==> {
                &&& blue == bright + 170 * (color % 2)
                &&& green == bright + 170 * (color / 2 % 2)
                &&& red == bright + 170 * (color / 4 % 2)
            }
        }),
{
}

/// A valid screen has room for each of its pixels, and whatever has room, a
/// pixel, scanlines that do not overlap and an address that pixels can have, is
/// valid.
pub proof fn lemma_valid_screens(info: FramebufferInfo)
    ensures
        info.is_valid() == {
            &&& info.address > 0 && info.address % 4 == 0
            &&& info.width > 0 && info.height > 0
            &&& info.width <= info.stride
            &&& ((info.height - 1) * info.stride + info.stride) * 4 <= info.size
        },
        info.is_valid() ==> forall|x: int, y: int|
            0 <= x < info.width && 0 <= y < info.height ==> 0 <= #[trigger] (y * info.stride + x)
                && (y * info.stride + x) * 4 + 4 <= info.size,
{
    assert((info.height - 1) * info.stride + info.stride == info.stride * info.height)
        by (nonlinear_arith);
    if info.is_valid() {
        assert forall|x: int, y: int| 0 <= x < info.width && 0 <= y < info.height implies 0
            <= #[trigger] (y * info.stride + x) && (y * info.stride + x) * 4 + 4 <= info.size by {
            let stride = info.stride as int;
            let height = info.height as int;
            assert(y * stride + x + 1 <= stride * height && y * stride >= 0) by (nonlinear_arith)
                requires
                    0 <= y < height,
                    0 <= x < stride,
            ;
        }
    }
}

} // verus!
