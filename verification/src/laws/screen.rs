//! What writing does to a terminal's screen.
use vstd::prelude::*;

use crate::framebuffer::palette;
use crate::vga_buffer::{
    attribute, byte_of, is_plain_text, offset_column, offset_line, rows_extended, Color, Screen,
    ScreenChar,
};

verus! {

/// The cell that a character leaves: itself if it is visible or a space, and a
/// block otherwise, in the color of the moment.
pub open spec fn is_cell_of(shown: ScreenChar, byte: u8, color: u8) -> bool {
    &&& shown.color_code == color
    &&& 0x20 <= byte <= 0x7e ==> shown.ascii_character == byte
    &&& !(0x20 <= byte <= 0x7e) ==> shown.ascii_character == 0xfe
}

/// A line feed begins the next line. Lines there were stay as they are while
/// they are among the last 128; the first new one is blank.
pub proof fn lemma_line_feed(s: Screen)
    requires
        s.wf(),
        s.line < usize::MAX,
        s.line <= s.last,
    ensures
        ({
            let after = s.byte(0x0a);
            &&& after.line == s.line + 1 && after.column == 0
            &&& after.color == s.color && after.columns == s.columns
            &&& s.line < s.last ==> after.last == s.last
            &&& s.line == s.last ==> after.last == s.last + 1
            &&& after.first == after.last - 127 || after.first == 0 && after.last < 127
            &&& forall|line: int|
                after.first <= line <= s.last ==> #[trigger] after.row(line) == s.row(line)
            &&& s.line == s.last ==> forall|column: int|
                0 <= column < 80 ==> #[trigger] after.row(after.line)[column] == (ScreenChar {
                    ascii_character: 0x20,
                    color_code: 7,
                })
        }),
{
    let after = s.newline();
    reveal_with_fuel(rows_extended, 2);
    assert(after == s.byte(0x0a));
    assert forall|line: int| after.first <= line <= s.last implies #[trigger] after.row(line)
        == s.row(line) by {
        if s.line == s.last {
            assert(0 < s.line + 1 - line < 128);
            assert(line % 128 != (s.line + 1) % 128);
        }
    }
}

/// A carriage return goes back to the first column of the line and changes no
/// cell; a tab writes spaces up to the next multiple of four columns.
pub proof fn lemma_return_and_tab(s: Screen)
    ensures
        ({
            let after = s.byte(0x0d);
            &&& after.line == s.line && after.column == 0
            &&& after.rows == s.rows && after.last == s.last && after.first == s.first
            &&& after.color == s.color && after.columns == s.columns
        }),
        s.column % 4 == 0 ==> s.byte(0x09) == s.print(seq![' ', ' ', ' ', ' ']),
        s.column % 4 == 1 ==> s.byte(0x09) == s.print(seq![' ', ' ', ' ']),
        s.column % 4 == 2 ==> s.byte(0x09) == s.print(seq![' ', ' ']),
        s.column % 4 == 3 ==> s.byte(0x09) == s.print(seq![' ']),
{
    reveal_with_fuel(Screen::padded, 5);
    reveal_with_fuel(Screen::print, 5);
    assert(seq![' ', ' ', ' ', ' '].drop_last() =~= seq![' ', ' ', ' ']);
    assert(seq![' ', ' ', ' '].drop_last() =~= seq![' ', ' ']);
    assert(seq![' ', ' '].drop_last() =~= seq![' ']);
    assert(seq![' '].drop_last() =~= Seq::<char>::empty());
}

/// Any other byte goes into the cell at the cursor, in the next line if this one
/// is full, and the cursor goes one cell further. No other cell changes that the
/// screen still holds.
pub proof fn lemma_character_takes_one_cell(s: Screen, byte: u8)
    requires
        s.wf(),
        s.column <= s.columns,
        s.line < usize::MAX,
        s.first <= s.line <= s.last,
        byte != 0x0a,
        byte != 0x0d,
        byte != 0x09,
    ensures
        ({
            let after = s.byte(byte);
            let line = if s.column == s.columns {
                s.line + 1
            } else {
                s.line
            };
            let column = if s.column == s.columns {
                0
            } else {
                s.column
            };
            &&& is_cell_of(after.row(line)[column], byte, s.color)
            &&& after.line == line && after.column == column + 1
            &&& after.color == s.color && after.columns == s.columns
            &&& after.last == s.last || after.last == line
            &&& forall|l: int, c: int|
                after.first <= l <= s.last && 0 <= c < 80 && (l != line || c != column)
                    ==> #[trigger] after.row(l)[c] == s.row(l)[c]
        }),
{
    let start = if s.column == s.columns {
        s.newline()
    } else {
        s.live()
    };
    if s.column == s.columns {
        lemma_line_feed(s);
        reveal_with_fuel(rows_extended, 2);
    }
    assert(start.rows[start.line % 128].len() == 80);
    let after = s.byte(byte);
    assert forall|l: int, c: int|
        after.first <= l <= s.last && 0 <= c < 80 && (l != start.line || c
            != start.column) implies #[trigger] after.row(l)[c] == s.row(l)[c] by {
        if s.column == s.columns {
            assert(s.newline().row(l) == s.row(l));
        }
        if l != start.line {
            assert(-128 < l - start.line < 128);
            assert(l % 128 != start.line % 128);
        }
    }
}

/// Text that stays within its line is read back from there.
pub proof fn lemma_text_is_read_back(s: Screen, text: Seq<char>, i: int)
    requires
        s.wf(),
        s.first <= s.line <= s.last,
        s.line < usize::MAX,
        s.column + text.len() <= s.columns,
        is_plain_text(text),
        0 <= i < text.len(),
    ensures
        ({
            let after = s.print(text);
            &&& is_cell_of(after.row(s.line)[s.column + i], byte_of(text[i]), s.color)
            &&& after.line == s.line && after.column == s.column + text.len()
            &&& after.last == s.last && after.first == s.first && after.wf() && after.color
                == s.color && after.columns == s.columns
        }),
    decreases text.len(),
{
    let shorter = text.drop_last();
    let before = s.print(shorter);
    assert forall|k: int| 0 <= k < shorter.len() implies (#[trigger] shorter[k]) != '\n'
        && shorter[k] != '\r' && shorter[k] != '\t' by {
        assert(text[k] == shorter[k]);
    }
    if shorter.len() > 0 {
        lemma_text_is_read_back(
            s,
            shorter,
            if i < shorter.len() {
                i
            } else {
                0
            },
        );
    } else {
        assert(before == s);
    }
    let c = text[text.len() - 1];
    assert(c != '\n' && c != '\r' && c != '\t');
    assert(c as int != 10 && c as int != 13 && c as int != 9);
    crate::text::lemma_char(c);
    lemma_character_takes_one_cell(before, byte_of(c));
    if i < shorter.len() {
        assert(shorter[i] == text[i]);
        assert(s.print(text).row(s.line)[s.column + i] == before.row(s.line)[s.column + i]);
    }
}

/// Characters fill lines one after the other: the cells passed are as many as
/// the characters, and a line is full before the next one begins.
pub proof fn lemma_offsets_count_cells(line: int, column: int, count: int, width: int)
    requires
        0 <= column <= width,
        0 <= count,
        0 < width,
    ensures
        ({
            let end_line = offset_line(line, column, count, width);
            let end_column = offset_column(column, count, width);
            &&& (end_line - line) * width + end_column == column + count
            &&& end_line >= line
            &&& 0 <= end_column <= width
            &&& end_column == 0 ==> column == 0 && count == 0
        }),
{
    let n = column + count;
    let q = n / width;
    let r = n % width;
    assert(n == q * width + r && 0 <= r < width && q >= 0) by (nonlinear_arith)
        requires
            n >= 0,
            width >= 1,
            q == n / width,
            r == n % width,
    ;
    if n > 0 && r == 0 {
        assert(q >= 1 && (q - 1) * width + width == n) by (nonlinear_arith)
            requires
                n > 0,
                width >= 1,
                n == q * width,
        ;
    }
}

/// ASCII characters are shown by their own code, and all others by one that has
/// no character.
pub proof fn lemma_codes(c: char)
    ensures
        (c as int) < 128 ==> byte_of(c) as int == c as int,
        (c as int) >= 128 ==> byte_of(c) > 0x7e,
{
}

/// A page up and a page down go fifteen lines, within what there is: up to the
/// oldest line held, down to the last sixteen. Neither changes what is written.
pub proof fn lemma_paging(s: Screen)
    requires
        s.wf(),
    ensures
        ({
            let up = s.scrolled_up();
            let down = s.scrolled_down();
            &&& up.rows == s.rows && up.line == s.line && up.column == s.column && up.last == s.last
            &&& down.rows == s.rows && down.line == s.line && down.column == s.column && down.last
                == s.last
            &&& up.top <= s.top && s.top - up.top <= 15 && s.first <= up.top
            &&& up.top > s.first ==> s.top - up.top == 15
            &&& down.top >= s.top && down.top - s.top <= 15
            &&& down.top + 15 <= s.last || down.top == s.top && s.top == 0
            &&& down.top + 15 < s.last ==> down.top - s.top == 15
        }),
{
}

/// Anything written shows the last sixteen lines.
pub proof fn lemma_writing_shows_the_end(s: Screen, byte: u8)
    requires
        s.wf(),
        s.column <= s.columns,
        byte != 0x09,
    ensures
        ({
            let after = s.byte(byte);
            after.last >= 15 ==> after.top + 15 == after.last
        }),
        s.byte(byte).last < 15 ==> s.byte(byte).top == 0,
{
}

/// The names of colors agree with the palette.
pub proof fn lemma_color_names()
    ensures
        palette(Color::Black.number() as int) == 0x000000,
        palette(Color::Blue.number() as int) == 0x0000aa,
        palette(Color::Green.number() as int) == 0x00aa00,
        palette(Color::Cyan.number() as int) == 0x00aaaa,
        palette(Color::Red.number() as int) == 0xaa0000,
        palette(Color::Magenta.number() as int) == 0xaa00aa,
        palette(Color::Brown.number() as int) == 0xaa5500,
        palette(Color::LightGray.number() as int) == 0xaaaaaa,
        palette(Color::DarkGray.number() as int) == 0x555555,
        palette(Color::LightBlue.number() as int) == 0x5555ff,
        palette(Color::LightGreen.number() as int) == 0x55ff55,
        palette(Color::LightCyan.number() as int) == 0x55ffff,
        palette(Color::LightRed.number() as int) == 0xff5555,
        palette(Color::Pink.number() as int) == 0xff55ff,
        palette(Color::Yellow.number() as int) == 0xffff55,
        palette(Color::White.number() as int) == 0xffffff,
{
}

/// An attribute byte holds the foreground in its low half and the background in
/// its high half.
pub proof fn lemma_attributes(foreground: Color, background: Color)
    ensures
        attribute(foreground, background) as int % 16 == foreground.number(),
        attribute(foreground, background) as int / 16 == background.number(),
{
}

} // verus!
