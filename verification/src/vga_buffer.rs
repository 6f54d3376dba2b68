//! Text console with bounded scrollback, and the cells of the desktop.
use vstd::prelude::*;

pub use crate::console::{
    active_terminal, refresh, set_active_terminal, set_terminal_columns, with_writer,
};
use crate::text::{
    decimal, hex_byte, hex_digit, is_printable, lemma_char, lemma_decimal_len_u64, spaces,
};

verus! {

pub const BUFFER_HEIGHT: usize = 25;
/// Lines of a terminal that are on display at a time.
pub const VIEW_HEIGHT: usize = 16;
pub const BUFFER_WIDTH: usize = 80;
pub const SCROLLBACK_LINES: usize = 128;

#[derive(Debug, Clone, Copy, PartialEq, Eq, Structural)]
pub enum Color {
    Black,
    Blue,
    Green,
    Cyan,
    Red,
    Magenta,
    Brown,
    LightGray,
    DarkGray,
    LightBlue,
    LightGreen,
    LightCyan,
    LightRed,
    Pink,
    Yellow,
    White,
}

impl Color {
    /// The color's number in the text-mode palette.
    pub open spec fn number(self) -> u8 {
        match self {
            Color::Black => 0,
            Color::Blue => 1,
            Color::Green => 2,
            Color::Cyan => 3,
            Color::Red => 4,
            Color::Magenta => 5,
            Color::Brown => 6,
            Color::LightGray => 7,
            Color::DarkGray => 8,
            Color::LightBlue => 9,
            Color::LightGreen => 10,
            Color::LightCyan => 11,
            Color::LightRed => 12,
            Color::Pink => 13,
            Color::Yellow => 14,
            Color::White => 15,
        }
    }

    pub fn code(self) -> (code: u8)
        ensures
            code == self.number(),
            code < 16,
    {
        match self {
            Color::Black => 0,
            Color::Blue => 1,
            Color::Green => 2,
            Color::Cyan => 3,
            Color::Red => 4,
            Color::Magenta => 5,
            Color::Brown => 6,
            Color::LightGray => 7,
            Color::DarkGray => 8,
            Color::LightBlue => 9,
            Color::LightGreen => 10,
            Color::LightCyan => 11,
            Color::LightRed => 12,
            Color::Pink => 13,
            Color::Yellow => 14,
            Color::White => 15,
        }
    }
}

/// The attribute byte of a foreground on a background: one palette number in
/// each half, the background in the upper one.
pub open spec fn attribute(foreground: Color, background: Color) -> u8 {
    (background.number() * 16 + foreground.number()) as u8
}

pub fn attribute_byte(foreground: Color, background: Color) -> (byte: u8)
    ensures
        byte == attribute(foreground, background),
{
    background.code() * 16 + foreground.code()
}

/// One console cell: a character and its attribute byte.
#[derive(Debug, Clone, Copy, PartialEq, Eq, Structural)]
pub struct ScreenChar {
    pub ascii_character: u8,
    pub color_code: u8,
}

pub open spec fn blank() -> ScreenChar {
    ScreenChar { ascii_character: 0x20, color_code: 7 }
}

pub fn blank_cell() -> (cell: ScreenChar)
    ensures
        cell == blank(),
{
    ScreenChar { ascii_character: 0x20, color_code: 7 }
}

pub open spec fn blank_row() -> Seq<ScreenChar> {
    Seq::new(80, |i: int| blank())
}

#[derive(Debug, Clone, Copy, PartialEq, Eq, Structural)]
pub struct Position {
    pub line: usize,
    pub column: usize,
}

/// Line reached by writing `count` characters from `column` of `line` in
/// `width` columns.
pub open spec fn offset_line(line: int, column: int, count: int, width: int) -> int {
    if column + count > 0 && (column + count) % width == 0 {
        line + (column + count) / width - 1
    } else {
        line + (column + count) / width
    }
}

/// Column reached by writing `count` characters from `column` in `width`
/// columns. A full line leaves the cursor behind its last column: the wrap is
/// pending until another character comes.
pub open spec fn offset_column(column: int, count: int, width: int) -> int {
    if column + count > 0 && (column + count) % width == 0 {
        width
    } else {
        (column + count) % width
    }
}

impl Position {
    pub fn offset(self, bytes: usize, width: usize) -> (position: Position)
        requires
            width > 0,
            self.column + bytes <= usize::MAX,
            self.line + (self.column + bytes) / (width as int) <= usize::MAX,
        ensures
            position.line == offset_line(
                self.line as int,
                self.column as int,
                bytes as int,
                width as int,
            ),
            position.column == offset_column(self.column as int, bytes as int, width as int),
    {
        let offset: usize = self.column + bytes;
        if offset > 0 && offset % width == 0 {
            proof {
                assert(offset as int / width as int >= 1) by (nonlinear_arith)
                    requires
                        offset > 0,
                        width > 0,
                        offset % width == 0,
                ;
            }
            Position { line: self.line + (offset / width - 1), column: width }
        } else {
            Position { line: self.line + offset / width, column: offset % width }
        }
    }
}

/// What a terminal holds: the ring of rows, where a line has the slot of its
/// number modulo the ring's size, and where writing and viewing stand in it.
#[verifier::ext_equal]
pub struct Screen {
    pub rows: Seq<Seq<ScreenChar>>,
    pub line: int,
    pub column: int,
    pub last: int,
    pub first: int,
    pub top: int,
    pub color: u8,
    pub columns: int,
}

/// First line on display when the end of the output is shown.
pub open spec fn live_top_of(last: int) -> int {
    if last >= 15 {
        last - 15
    } else {
        0
    }
}

/// Oldest line that the ring still holds.
pub open spec fn first_of(last: int) -> int {
    if last >= 127 {
        last - 127
    } else {
        0
    }
}

/// The ring after the lines behind `last` up to `line` have come into being:
/// each takes its slot blank.
pub open spec fn rows_extended(rows: Seq<Seq<ScreenChar>>, last: int, line: int) -> Seq<
    Seq<ScreenChar>,
>
    decreases line - last,
{
    if line <= last {
        rows
    } else {
        rows_extended(rows, last, line - 1).update(line % 128, blank_row())
    }
}

impl Screen {
    pub open spec fn wf(self) -> bool {
        &&& self.rows.len() == 128
        &&& forall|i: int| 0 <= i < 128 ==> (#[trigger] self.rows[i]).len() == 80
        &&& 1 <= self.columns <= 80
        &&& 0 <= self.column <= 80
        &&& 0 <= self.line <= usize::MAX
        &&& 0 <= self.last <= usize::MAX
        &&& self.first == first_of(self.last)
        &&& self.first <= self.top <= live_top_of(self.last)
    }

    /// The row of a line.
    pub open spec fn row(self, line: int) -> Seq<ScreenChar> {
        self.rows[line % 128]
    }

    pub open spec fn cleared(self) -> Screen {
        Screen {
            rows: Seq::new(128, |i: int| blank_row()),
            line: 0,
            column: 0,
            last: 0,
            first: 0,
            top: 0,
            color: 7,
            columns: self.columns,
        }
    }

    pub open spec fn colored(self, foreground: Color, background: Color) -> Screen {
        Screen { color: attribute(foreground, background), ..self }
    }

    pub open spec fn at(self, line: int, column: int) -> Screen {
        Screen { line, column, ..self }
    }

    /// Showing the end of the output.
    pub open spec fn live(self) -> Screen {
        Screen { top: live_top_of(self.last), ..self }
    }

    /// Showing a page less of the output's end, as far as the ring goes. One line
    /// stays on display.
    pub open spec fn scrolled_up(self) -> Screen {
        Screen {
            top: if self.top - 15 >= self.first {
                self.top - 15
            } else {
                self.first
            },
            ..self
        }
    }

    /// Showing a page more of the output's end.
    pub open spec fn scrolled_down(self) -> Screen {
        Screen {
            top: if self.top + 15 <= live_top_of(self.last) {
                self.top + 15
            } else {
                live_top_of(self.last)
            },
            ..self
        }
    }

    /// With every line up to `line` in being, the oldest forgotten.
    pub open spec fn extended(self, line: int) -> Screen {
        let last = if self.last < line {
            line
        } else {
            self.last
        };
        Screen {
            rows: rows_extended(self.rows, self.last, line),
            last,
            first: first_of(last),
            top: live_top_of(last),
            ..self
        }
    }

    pub open spec fn newline(self) -> Screen {
        self.at(self.line + 1, 0).extended(self.line + 1)
    }

    /// After one character: a pending wrap is done first.
    pub open spec fn glyph(self, byte: u8) -> Screen {
        let start = if self.column == self.columns {
            self.newline()
        } else {
            self.live()
        };
        let cell = ScreenChar {
            ascii_character: if is_printable(byte) {
                byte
            } else {
                0xfe
            },
            color_code: self.color,
        };
        Screen {
            rows: start.rows.update(
                start.line % 128,
                start.row(start.line).update(start.column, cell),
            ),
            column: start.column + 1,
            ..start
        }
    }

    pub open spec fn padded(self, count: int) -> Screen
        decreases count,
    {
        if count <= 0 {
            self
        } else {
            self.padded(count - 1).glyph(0x20)
        }
    }

    pub open spec fn byte(self, byte: u8) -> Screen {
        if byte == 0x0a {
            self.newline()
        } else if byte == 0x0d {
            self.live().at(self.line, 0)
        } else if byte == 0x09 {
            self.padded(4 - self.column % 4)
        } else {
            self.glyph(byte)
        }
    }

    pub open spec fn print(self, text: Seq<char>) -> Screen
        decreases text.len(),
    {
        if text.len() == 0 {
            self
        } else {
            self.print(text.drop_last()).byte(byte_of(text.last()))
        }
    }

    /// After input that starts at `line` and `column` was drawn as `text`, over
    /// `old_len` characters of which the rest is erased, with the cursor at
    /// `cursor` in it.
    pub open spec fn input(
        self,
        line: int,
        column: int,
        text: Seq<char>,
        cursor: int,
        old_len: int,
    ) -> Screen {
        let drawn = self.at(line, column).print(text).padded(old_len - text.len());
        let end_line = offset_line(line, column, cursor, self.columns);
        let end_column = offset_column(column, cursor, self.columns);
        drawn.at(end_line, end_column).extended(end_line)
    }

    /// Whether one more character finds a cell, and a line number that exists
    /// if it needs a new line.
    pub open spec fn takes_glyph(self) -> bool {
        if self.column == self.columns {
            self.line < usize::MAX
        } else {
            self.column < 80
        }
    }

    pub open spec fn takes_padding(self, count: int) -> bool
        decreases count,
    {
        count <= 0 || self.takes_padding(count - 1) && self.padded(count - 1).takes_glyph()
    }

    pub open spec fn takes_byte(self, byte: u8) -> bool {
        if byte == 0x0a {
            self.line < usize::MAX
        } else if byte == 0x0d {
            true
        } else if byte == 0x09 {
            self.takes_padding(4 - self.column % 4)
        } else {
            self.takes_glyph()
        }
    }

    /// Whether every character of the text finds a cell.
    pub open spec fn takes(self, text: Seq<char>) -> bool
        decreases text.len(),
    {
        text.len() == 0 || self.takes(text.drop_last()) && self.print(text.drop_last()).takes_byte(
            byte_of(text.last()),
        )
    }

    /// Whether the cursor is within the columns in use, and `lines` more lines
    /// can be counted.
    pub open spec fn room(self, lines: int) -> bool {
        &&& self.wf()
        &&& self.column <= self.columns
        &&& self.line + lines <= usize::MAX
    }
}

/// The byte by which a character is shown; those outside ASCII share one.
pub open spec fn byte_of(c: char) -> u8 {
    if (c as int) < 128 {
        c as u8
    } else {
        0xfe
    }
}

/// A terminal: the last 128 lines of its output, and the part of them shown.
pub struct Writer {
    pub lines: [[ScreenChar; 80]; 128],
    pub cursor: Position,
    pub last_line: usize,
    pub first_line: usize,
    pub view_top: usize,
    pub color: u8,
    pub columns: usize,
}

impl View for Writer {
    type V = Screen;

    open spec fn view(&self) -> Screen {
        Screen {
            rows: Seq::new(128, |i: int| self.lines@[i]@),
            line: self.cursor.line as int,
            column: self.cursor.column as int,
            last: self.last_line as int,
            first: self.first_line as int,
            top: self.view_top as int,
            color: self.color,
            columns: self.columns as int,
        }
    }
}

impl Writer {
    pub fn new() -> (writer: Writer)
        ensures
            writer@.wf(),
            writer@ == (Screen { columns: 80, ..writer@.cleared() }),
    {
        let empty: ScreenChar = blank_cell();
        let writer = Writer {
            lines: [[empty; 80]; 128],
            cursor: Position { line: 0, column: 0 },
            last_line: 0,
            first_line: 0,
            view_top: 0,
            color: 7,
            columns: BUFFER_WIDTH,
        };
        proof {
            assert forall|i: int| 0 <= i < 128 implies writer.lines@[i]@ == blank_row() by {
                assert(writer.lines@[i]@ =~= blank_row());
            }
            assert(writer@.rows =~= writer@.cleared().rows);
        }
        writer
    }

    pub fn clear(&mut self)
        requires
            old(self)@.wf(),
        ensures
            final(self)@ == old(self)@.cleared(),
            final(self)@.wf(),
    {
        let empty: ScreenChar = blank_cell();
        self.lines = [[empty; 80]; 128];
        self.cursor = Position { line: 0, column: 0 };
        self.last_line = 0;
        self.first_line = 0;
        self.view_top = 0;
        self.color = 7;
        proof {
            assert forall|i: int| 0 <= i < 128 implies self.lines@[i]@ == blank_row() by {
                assert(self.lines@[i]@ =~= blank_row());
            }
            assert(self@.rows =~= old(self)@.cleared().rows);
        }
    }

    pub fn set_color(&mut self, foreground: Color, background: Color)
        ensures
            final(self)@ == old(self)@.colored(foreground, background),
            old(self)@.wf() ==> final(self)@.wf(),
    {
        self.color = attribute_byte(foreground, background);
        assert(self@.rows =~= old(self)@.rows);
    }

    pub fn position(&self) -> (position: Position)
        ensures
            position == self.cursor,
            position.line == self@.line,
            position.column == self@.column,
    {
        self.cursor
    }

    pub fn set_columns(&mut self, columns: usize)
        requires
            1 <= columns <= 80,
        ensures
            final(self)@ == (Screen { columns: columns as int, ..old(self)@ }),
            old(self)@.wf() ==> final(self)@.wf(),
    {
        self.columns = columns;
        assert(self@.rows =~= old(self)@.rows);
    }

    pub fn live_top(&self) -> (top: usize)
        ensures
            top == live_top_of(self@.last),
    {
        if self.last_line >= VIEW_HEIGHT - 1 {
            self.last_line - (VIEW_HEIGHT - 1)
        } else {
            0
        }
    }

    fn ensure_line(&mut self, line: usize)
        requires
            old(self)@.rows.len() == 128,
        ensures
            final(self)@ == old(self)@.extended(line as int),
    {
        let empty: ScreenChar = blank_cell();
        while self.last_line < line
            invariant
                empty == blank(),
                old(self).last_line <= self.last_line,
                self.last_line <= line || self.last_line == old(self).last_line,
                self.cursor == old(self).cursor,
                self.color == old(self).color,
                self.columns == old(self).columns,
                self@.rows =~= rows_extended(
                    old(self)@.rows,
                    old(self).last_line as int,
                    self.last_line as int,
                ),
            decreases line - self.last_line,
        {
            let ghost before = self@.rows;
            self.last_line += 1;
            self.lines[self.last_line % SCROLLBACK_LINES] = [empty; 80];
            proof {
                let slot = self.last_line as int % 128;
                assert(self.lines@[slot]@ =~= blank_row());
                assert(self@.rows =~= before.update(slot, blank_row()));
            }
        }
        self.first_line = if self.last_line >= SCROLLBACK_LINES - 1 {
            self.last_line - (SCROLLBACK_LINES - 1)
        } else {
            0
        };
        self.view_top = self.live_top();
        assert(self@.rows =~= old(self)@.extended(line as int).rows);
    }

    fn newline(&mut self)
        requires
            old(self)@.wf(),
            old(self)@.line < usize::MAX,
        ensures
            final(self)@ == old(self)@.newline(),
            final(self)@.wf(),
    {
        let next: usize = self.cursor.line + 1;
        self.cursor = Position { line: next, column: 0 };
        assert(self@.rows =~= old(self)@.rows);
        self.ensure_line(next);
        proof {
            lemma_extended_wf(old(self)@.at(next as int, 0), next as int);
        }
    }

    fn put_glyph(&mut self, byte: u8)
        requires
            old(self)@.wf(),
            old(self)@.takes_glyph(),
        ensures
            final(self)@ == old(self)@.glyph(byte),
            final(self)@.wf(),
    {
        let color: u8 = self.color;
        if self.cursor.column == self.columns {
            self.newline();
        } else {
            self.view_top = self.live_top();
        }
        let ghost start = self@;
        assert(start.rows =~= if old(self)@.column == old(self)@.columns {
            old(self)@.newline().rows
        } else {
            old(self)@.rows
        });
        let cell = ScreenChar {
            ascii_character: if byte >= 0x20 && byte <= 0x7e {
                byte
            } else {
                0xfe
            },
            color_code: color,
        };
        let slot: usize = self.cursor.line % SCROLLBACK_LINES;
        self.lines[slot][self.cursor.column] = cell;
        self.cursor.column += 1;
        assert(self@.rows =~= start.rows.update(
            slot as int,
            start.rows[slot as int].update(start.column, cell),
        ));
    }

    fn pad(&mut self, count: usize)
        requires
            old(self)@.wf(),
            old(self)@.takes_padding(count as int),
        ensures
            final(self)@ == old(self)@.padded(count as int),
            final(self)@.wf(),
    {
        let mut done: usize = 0;
        while done < count
            invariant
                done <= count,
                self@.wf(),
                old(self)@.takes_padding(count as int),
                self@ == old(self)@.padded(done as int),
            decreases count - done,
        {
            proof {
                lemma_takes_padding_prefix(old(self)@, (done + 1) as int, count as int);
            }
            self.put_glyph(0x20);
            done += 1;
        }
    }

    /// Write one byte: a line feed, carriage return or tab acts as such, and
    /// what is not printable shows as a filled box.
    pub fn write_byte(&mut self, byte: u8)
        requires
            old(self)@.wf(),
            old(self)@.takes_byte(byte),
        ensures
            final(self)@ == old(self)@.byte(byte),
            final(self)@.wf(),
    {
        if byte == 0x0a {
            self.newline();
        } else if byte == 0x0d {
            self.view_top = self.live_top();
            self.cursor.column = 0;
            assert(self@.rows =~= old(self)@.rows);
        } else if byte == 0x09 {
            let count: usize = 4 - self.cursor.column % 4;
            self.pad(count);
        } else {
            self.put_glyph(byte);
        }
    }

    pub fn write_string(&mut self, text: &str)
        requires
            old(self)@.wf(),
            old(self)@.takes(text@),
        ensures
            final(self)@ == old(self)@.print(text@),
            final(self)@.wf(),
    {
        let len: usize = text.unicode_len();
        let mut i: usize = 0;
        assert(text@.take(0) =~= Seq::<char>::empty());
        while i < len
            invariant
                i <= len,
                len == text@.len(),
                self@.wf(),
                old(self)@.takes(text@),
                self@ == old(self)@.print(text@.take(i as int)),
            decreases len - i,
        {
            let c: char = text.get_char(i);
            let byte: u8 = if (c as u32) < 128 {
                c as u8
            } else {
                0xfe
            };
            proof {
                lemma_takes_prefix(old(self)@, text@, (i + 1) as int);
                let next = text@.take(i + 1);
                assert(next.drop_last() =~= text@.take(i as int));
                assert(next.last() == c);
            }
            self.write_byte(byte);
            i += 1;
        }
        assert(text@.take(len as int) =~= text@);
    }

    /// Write text where the cursor is within the columns in use.
    pub fn write_str(&mut self, text: &str)
        requires
            old(self)@.room(4 * text@.len() as int),
        ensures
            final(self)@ == old(self)@.print(text@),
            continues(old(self)@, final(self)@, 4 * text@.len() as int),
    {
        proof {
            lemma_print(old(self)@, text@);
        }
        self.write_string(text);
    }

    fn write_char(&mut self, byte: u8)
        requires
            byte < 128,
            old(self)@.room(4),
        ensures
            final(self)@ == old(self)@.print(seq![byte as char]),
            continues(old(self)@, final(self)@, 4),
    {
        proof {
            let text = seq![byte as char];
            assert(text.drop_last() =~= Seq::<char>::empty());
            assert(old(self)@.print(text) == old(self)@.byte(byte)) by {
                reveal_with_fuel(Screen::print, 2);
            }
            lemma_byte(old(self)@, byte);
        }
        self.write_byte(byte);
    }

    /// Write a number in decimal.
    pub fn write_decimal(&mut self, n: u64)
        requires
            old(self)@.room(80),
        ensures
            final(self)@ == old(self)@.print(decimal(n as nat)),
            continues(old(self)@, final(self)@, 80),
    {
        proof {
            lemma_decimal_len_u64(n);
        }
        self.write_digits(n);
    }

    fn write_digits(&mut self, n: u64)
        requires
            old(self)@.room(4 * decimal(n as nat).len() as int),
        ensures
            final(self)@ == old(self)@.print(decimal(n as nat)),
            continues(old(self)@, final(self)@, 4 * decimal(n as nat).len() as int),
        decreases n,
    {
        let low: u8 = 0x30 + (n % 10) as u8;
        let ghost digits = decimal(n as nat);
        if n >= 10 {
            self.write_digits(n / 10);
            proof {
                lemma_print_concat(old(self)@, decimal((n / 10) as nat), seq![low as char]);
                assert(decimal((n / 10) as nat) + seq![low as char] =~= digits);
                lemma_continues_room(
                    old(self)@,
                    self@,
                    4 * (digits.len() - 1),
                    4 * digits.len() as int,
                );
            }
        }
        let ghost before = self@;
        self.write_char(low);
        proof {
            if n >= 10 {
                lemma_continues(old(self)@, before, self@, 4 * (digits.len() - 1), 4);
            }
        }
    }

    /// Write a byte as two hexadecimal digits.
    pub fn write_hex_byte(&mut self, byte: u8)
        requires
            old(self)@.room(8),
        ensures
            final(self)@ == old(self)@.print(hex_byte(byte)),
            continues(old(self)@, final(self)@, 8),
    {
        let high: u8 = nibble(byte / 16);
        let low: u8 = nibble(byte % 16);
        self.write_char(high);
        let ghost before = self@;
        self.write_char(low);
        proof {
            lemma_print_concat(old(self)@, seq![high as char], seq![low as char]);
            assert(seq![high as char] + seq![low as char] =~= hex_byte(byte));
            lemma_continues(old(self)@, before, self@, 4, 4);
        }
    }

    /// Write some spaces.
    pub fn write_spaces(&mut self, count: usize)
        requires
            old(self)@.room(4 * count),
        ensures
            final(self)@ == old(self)@.print(spaces(count as int)),
            continues(old(self)@, final(self)@, 4 * count),
    {
        proof {
            lemma_print(old(self)@, spaces(count as int));
            lemma_padded(old(self)@, count as int);
            lemma_print_spaces(old(self)@, count as int);
        }
        self.pad(count);
    }

    /// Redraw ASCII input, erasing stale characters after deletions.
    pub fn replace_input(&mut self, anchor: Position, text: &str, cursor: usize, old_len: usize)
        requires
            old(self)@.wf(),
            anchor.line >= old(self)@.first,
            anchor.column <= 80,
            is_ascii_text(text@),
            cursor <= text@.len(),
            anchor.column + cursor <= usize::MAX,
            anchor.line + (anchor.column + cursor) / old(self)@.columns <= usize::MAX,
            old(self)@.at(anchor.line as int, anchor.column as int).takes(text@),
            old(self)@.at(anchor.line as int, anchor.column as int).print(text@).takes_padding(
                old_len - text@.len(),
            ),
        ensures
            final(self)@ == old(self)@.input(
                anchor.line as int,
                anchor.column as int,
                text@,
                cursor as int,
                old_len as int,
            ),
            final(self)@.wf(),
    {
        self.cursor = anchor;
        assert(self@.rows =~= old(self)@.rows);
        assert(self@ == old(self)@.at(anchor.line as int, anchor.column as int));
        self.write_string(text);
        let len: usize = text.unicode_len();
        if len < old_len {
            self.pad(old_len - len);
        }
        proof {
            lemma_print_columns(
                old(self)@.at(anchor.line as int, anchor.column as int),
                text@,
            );
            lemma_padded_columns(
                old(self)@.at(anchor.line as int, anchor.column as int).print(text@),
                old_len - text@.len(),
            );
            lemma_offset_bounds(anchor.column as int, cursor as int, self.columns as int);
        }
        let ghost drawn = self@;
        self.cursor = anchor.offset(cursor, self.columns);
        assert(self@.rows =~= drawn.rows);
        let line: usize = self.cursor.line;
        self.ensure_line(line);
        proof {
            lemma_extended_wf(drawn.at(line as int, self.cursor.column as int), line as int);
        }
    }

    pub fn scroll_up(&mut self)
        requires
            old(self)@.wf(),
        ensures
            final(self)@ == old(self)@.scrolled_up(),
            final(self)@.wf(),
    {
        let page: usize = VIEW_HEIGHT - 1;
        let up: usize = if self.view_top >= page {
            self.view_top - page
        } else {
            0
        };
        self.view_top = if up >= self.first_line {
            up
        } else {
            self.first_line
        };
        assert(self@.rows =~= old(self)@.rows);
    }

    pub fn scroll_down(&mut self)
        requires
            old(self)@.wf(),
        ensures
            final(self)@ == old(self)@.scrolled_down(),
            final(self)@.wf(),
    {
        let live: usize = self.live_top();
        self.view_top = if live >= VIEW_HEIGHT - 1 && self.view_top <= live - (VIEW_HEIGHT - 1) {
            self.view_top + (VIEW_HEIGHT - 1)
        } else {
            live
        };
        assert(self@.rows =~= old(self)@.rows);
    }
}

fn nibble(value: u8) -> (digit: u8)
    requires
        value < 16,
    ensures
        digit as char == hex_digit(value as nat),
        digit < 128,
{
    if value < 10 {
        0x30 + value
    } else {
        0x57 + value
    }
}

pub open spec fn is_ascii_text(text: Seq<char>) -> bool {
    forall|i: int| 0 <= i < text.len() ==> (#[trigger] text[i] as int) < 128
}

proof fn lemma_rows_extended(rows: Seq<Seq<ScreenChar>>, last: int, line: int)
    requires
        rows.len() == 128,
        forall|i: int| 0 <= i < 128 ==> (#[trigger] rows[i]).len() == 80,
    ensures
        rows_extended(rows, last, line).len() == 128,
        forall|i: int|
            0 <= i < 128 ==> (#[trigger] rows_extended(rows, last, line)[i]).len() == 80,
    decreases line - last,
{
    if line > last {
        lemma_rows_extended(rows, last, line - 1);
    }
}

proof fn lemma_extended_wf(s: Screen, line: int)
    requires
        s.wf(),
        0 <= line <= usize::MAX,
    ensures
        s.extended(line).wf(),
{
    lemma_rows_extended(s.rows, s.last, line);
}

proof fn lemma_takes_padding_prefix(s: Screen, n: int, count: int)
    requires
        n <= count,
        s.takes_padding(count),
    ensures
        s.takes_padding(n),
    decreases count,
{
    if n < count && count > 0 {
        lemma_takes_padding_prefix(s, n, count - 1);
    }
}

proof fn lemma_takes_prefix(s: Screen, text: Seq<char>, n: int)
    requires
        0 <= n <= text.len(),
        s.takes(text),
    ensures
        s.takes(text.take(n)),
    decreases text.len(),
{
    if n == text.len() {
        assert(text.take(n) =~= text);
    } else {
        lemma_takes_prefix(s, text.drop_last(), n);
        assert(text.drop_last().take(n) =~= text.take(n));
    }
}

proof fn lemma_padded_columns(s: Screen, count: int)
    ensures
        s.padded(count).columns == s.columns,
    decreases count,
{
    if count > 0 {
        lemma_padded_columns(s, count - 1);
    }
}

proof fn lemma_print_columns(s: Screen, text: Seq<char>)
    ensures
        s.print(text).columns == s.columns,
    decreases text.len(),
{
    if text.len() > 0 {
        lemma_print_columns(s, text.drop_last());
        let t = s.print(text.drop_last());
        lemma_padded_columns(t, 4 - t.column % 4);
    }
}

proof fn lemma_offset_bounds(column: int, count: int, width: int)
    requires
        column >= 0,
        count >= 0,
        1 <= width <= 80,
    ensures
        0 <= offset_column(column, count, width) <= width,
        0 <= offset_line(0, column, count, width) <= (column + count) / width,
{
    let n = column + count;
    assert(0 <= n % width < width && 0 <= n / width && (n > 0 && n % width == 0 ==> n / width >= 1))
        by (nonlinear_arith)
        requires
            n >= 0,
            width >= 1,
    ;
}

/// What writing from `s` may change on the way to `t`, over at most `lines`
/// further lines.
pub open spec fn continues(s: Screen, t: Screen, lines: int) -> bool {
    &&& t.wf()
    &&& t.column <= t.columns
    &&& t.columns == s.columns
    &&& s.line <= t.line <= s.line + lines
    &&& s.last <= t.last
    &&& t.last == s.last || t.last <= t.line
    &&& s.line <= s.last ==> {
        &&& t.line <= t.last
        &&& forall|l: int| t.first <= l < s.line ==> #[trigger] t.row(l) == s.row(l)
    }
}

/// How far output got the cursor: at most `lines` lines down, within the
/// columns in use, and not off the lines that the ring holds. No line comes into
/// being below it.
pub open spec fn advances(s: Screen, t: Screen, lines: int) -> bool {
    &&& t.wf()
    &&& t.column <= t.columns
    &&& t.columns == s.columns
    &&& t.line <= s.line + lines
    &&& s.first <= s.line <= s.last ==> t.first <= t.line <= t.last
    &&& t.last <= t.line || t.last <= s.last && s.line <= t.line
}

proof fn lemma_continues(s: Screen, t: Screen, u: Screen, n: int, m: int)
    requires
        s.wf(),
        continues(s, t, n),
        continues(t, u, m),
    ensures
        continues(s, u, n + m),
{
    if s.line <= s.last {
        assert forall|l: int| u.first <= l < s.line implies #[trigger] u.row(l) == s.row(l) by {
            assert(t.row(l) == s.row(l));
        }
    }
}

/// What is left of the room for lines after some were written.
pub proof fn lemma_continues_room(s: Screen, t: Screen, written: int, lines: int)
    requires
        s.room(lines),
        continues(s, t, written),
    ensures
        t.room(lines - written),
{
}

proof fn lemma_print_spaces(s: Screen, count: int)
    requires
        count >= 0,
    ensures
        s.print(spaces(count)) == s.padded(count),
    decreases count,
{
    if count > 0 {
        lemma_print_spaces(s, count - 1);
        assert(spaces(count).drop_last() =~= spaces(count - 1));
        assert(spaces(count).last() == ' ');
    }
}

proof fn lemma_newline(s: Screen)
    requires
        s.wf(),
        s.line < usize::MAX,
    ensures
        continues(s, s.newline(), 1),
        s.newline().column == 0,
        s.newline().line == s.line + 1,
{
    let moved = s.at(s.line + 1, 0);
    lemma_extended_wf(moved, s.line + 1);
    let t = s.newline();
    if s.line <= s.last {
        assert forall|l: int| t.first <= l < s.line implies #[trigger] t.row(l) == s.row(l) by {
            reveal_with_fuel(rows_extended, 2);
        }
    }
}

proof fn lemma_glyph(s: Screen, byte: u8)
    requires
        s.room(1),
    ensures
        s.takes_glyph(),
        continues(s, s.glyph(byte), 1),
{
    let start = if s.column == s.columns {
        s.newline()
    } else {
        s.live()
    };
    if s.column == s.columns {
        lemma_newline(s);
    }
    let t = s.glyph(byte);
    assert(continues(s, start, 1));
    if s.line <= s.last {
        assert forall|l: int| t.first <= l < s.line implies #[trigger] t.row(l) == s.row(l) by {
            assert(start.row(l) == s.row(l));
        }
    }
}

proof fn lemma_padded(s: Screen, count: int)
    requires
        count >= 0,
        s.room(count),
    ensures
        s.takes_padding(count),
        continues(s, s.padded(count), count),
    decreases count,
{
    if count > 0 {
        lemma_padded(s, count - 1);
        lemma_glyph(s.padded(count - 1), 0x20);
        lemma_continues(s, s.padded(count - 1), s.padded(count), count - 1, 1);
    }
}

proof fn lemma_byte(s: Screen, byte: u8)
    requires
        s.room(4),
    ensures
        s.takes_byte(byte),
        continues(s, s.byte(byte), 4),
{
    if byte == 0x0a {
        lemma_newline(s);
    } else if byte == 0x09 {
        lemma_padded(s, 4 - s.column % 4);
    } else if byte != 0x0d {
        lemma_glyph(s, byte);
    }
}

/// Text written where the cursor is within the columns in use always finds its
/// cells, and the lines above it that the ring still holds stay as they are.
pub proof fn lemma_print(s: Screen, text: Seq<char>)
    requires
        s.room(4 * text.len() as int),
    ensures
        s.takes(text),
        continues(s, s.print(text), 4 * text.len() as int),
    decreases text.len(),
{
    if text.len() > 0 {
        let t = s.print(text.drop_last());
        lemma_print(s, text.drop_last());
        lemma_byte(t, byte_of(text.last()));
        lemma_continues(s, t, s.print(text), 4 * (text.len() - 1), 4);
    }
}

/// Writing a text in two parts is writing it at once.
pub broadcast proof fn lemma_print_concat(s: Screen, a: Seq<char>, b: Seq<char>)
    ensures
        #[trigger] s.print(a).print(b) == s.print(a + b),
    decreases b.len(),
{
    if b.len() == 0 {
        assert(a + b =~= a);
    } else {
        lemma_print_concat(s, a, b.drop_last());
        assert((a + b).drop_last() =~= a + b.drop_last());
        assert((a + b).last() == b.last());
    }
}

/// Characters that take one cell each when written.
pub open spec fn is_plain_text(text: Seq<char>) -> bool {
    forall|i: int|
        0 <= i < text.len() ==> (#[trigger] text[i]) != '\n' && text[i] != '\r' && text[i] != '\t'
}

proof fn lemma_offset_step(column: int, count: int, width: int)
    requires
        0 <= column <= width,
        count >= 0,
        width >= 1,
    ensures
        offset_column(column, count, width) == width ==> {
            &&& offset_column(column, count + 1, width) == 1
            &&& offset_line(0, column, count + 1, width) == offset_line(0, column, count, width) + 1
        },
        offset_column(column, count, width) < width ==> {
            &&& offset_column(column, count + 1, width) == offset_column(column, count, width) + 1
            &&& offset_line(0, column, count + 1, width) == offset_line(0, column, count, width)
        },
        0 <= offset_column(column, count, width) <= width,
{
    let n = column + count;
    let q = n / width;
    let r = n % width;
    assert(n == q * width + r && 0 <= r < width) by (nonlinear_arith)
        requires
            width >= 1,
            q == n / width,
            r == n % width,
    ;
    if r + 1 < width {
        assert((n + 1) / width == q && (n + 1) % width == r + 1) by (nonlinear_arith)
            requires
                width >= 1,
                n == q * width + r,
                0 <= r,
                r + 1 < width,
        ;
    } else {
        assert((n + 1) / width == q + 1 && (n + 1) % width == 0) by (nonlinear_arith)
            requires
                width >= 1,
                n == q * width + r,
                r + 1 == width,
        ;
    }
    if n > 0 && r == 0 {
        assert(q >= 1) by (nonlinear_arith)
            requires
                n > 0,
                width >= 1,
                n == q * width,
        ;
    }
}

/// Writing plain text leaves the cursor where `Position::offset` says.
pub proof fn lemma_plain_text_lands_at_offset(s: Screen, text: Seq<char>)
    requires
        s.room(4 * text.len() as int),
        is_plain_text(text),
    ensures
        s.print(text).line == offset_line(s.line, s.column, text.len() as int, s.columns),
        s.print(text).column == offset_column(s.column, text.len() as int, s.columns),
    decreases text.len(),
{
    let width = s.columns;
    if text.len() == 0 {
        if s.column == width {
            assert(width % width == 0 && width / width == 1) by (nonlinear_arith)
                requires
                    width >= 1,
            ;
        } else {
            let c = s.column;
            assert(c % width == c && c / width == 0) by (nonlinear_arith)
                requires
                    0 <= c < width,
            ;
        }
    } else {
        let prefix = text.drop_last();
        let t = s.print(prefix);
        assert(is_plain_text(prefix)) by {
            assert forall|i: int| 0 <= i < prefix.len() implies (#[trigger] prefix[i]) != '\n'
                && prefix[i] != '\r' && prefix[i] != '\t' by {
                assert(prefix[i] == text[i]);
            }
        }
        lemma_plain_text_lands_at_offset(s, prefix);
        lemma_print(s, prefix);
        lemma_offset_step(s.column, prefix.len() as int, width);
        assert(text.last() == text[text.len() - 1]);
        let c = text.last();
        assert(c as int != 10 && c as int != 13 && c as int != 9);
        lemma_char(c);
        assert(s.print(text) == t.glyph(byte_of(c)));
        lemma_newline(t);
    }
}

/// Drawing input of at most 256 characters in three columns or more keeps its
/// first line in the ring.
pub proof fn lemma_input_keeps_anchor(
    s: Screen,
    line: int,
    column: int,
    text: Seq<char>,
    cursor: int,
    old_len: int,
)
    requires
        s.wf(),
        s.columns >= 3,
        s.first <= line,
        0 <= column <= s.columns,
        is_plain_text(text),
        0 <= cursor <= text.len() <= 256,
        0 <= old_len <= 256,
        line + 2048 <= usize::MAX,
    ensures
        s.input(line, column, text, cursor, old_len).wf(),
        s.input(line, column, text, cursor, old_len).first <= line,
{
    let start = s.at(line, column);
    let drawn = start.print(text);
    let count = if old_len > text.len() {
        old_len - text.len()
    } else {
        0
    };
    let padded = drawn.padded(old_len - text.len());
    assert(start.room(4 * text.len() as int));
    lemma_print(start, text);
    lemma_plain_text_lands_at_offset(start, text);
    lemma_padded(drawn, count);
    lemma_padded_lands_at_offset(start, text, count);
    assert(padded == drawn.padded(count));
    lemma_offset_lines(column, text.len() + count, s.columns);
    lemma_offset_lines(column, cursor, s.columns);
    lemma_offset_bounds(column, cursor, s.columns);
    lemma_continues(start, drawn, padded, 4 * text.len() as int, count);
    let end_line = offset_line(line, column, cursor, s.columns);
    lemma_extended_wf(padded.at(end_line, offset_column(column, cursor, s.columns)), end_line);
}

/// Input of at most 256 characters in three columns or more finds its cells,
/// and leaves the cursor among the lines that it takes.
pub proof fn lemma_input_fits(
    s: Screen,
    line: int,
    column: int,
    text: Seq<char>,
    cursor: int,
    old_len: int,
)
    requires
        s.wf(),
        s.columns >= 3,
        s.first <= line,
        0 <= column <= s.columns,
        is_plain_text(text),
        0 <= cursor <= text.len() <= 256,
        0 <= old_len <= 256,
        line + 2048 <= usize::MAX,
    ensures
        s.at(line, column).takes(text),
        s.at(line, column).print(text).takes_padding(old_len - text.len()),
        line + (column + cursor) / s.columns <= usize::MAX,
        ({
            let t = s.input(line, column, text, cursor, old_len);
            &&& t.wf()
            &&& t.columns == s.columns
            &&& t.column <= t.columns
            &&& line <= t.line <= line + 86
            &&& t.first <= line
            &&& t.line <= t.last
            &&& s.columns >= 36 ==> t.last <= s.last || t.last <= line + 8
        }),
{
    lemma_input_keeps_anchor(s, line, column, text, cursor, old_len);
    let start = s.at(line, column);
    let drawn = start.print(text);
    let count = old_len - text.len();
    lemma_print(start, text);
    lemma_plain_text_lands_at_offset(start, text);
    if count > 0 {
        lemma_padded(drawn, count);
        lemma_padded_lands_at_offset(start, text, count);
        lemma_offset_lines(column, old_len, s.columns);
    }
    lemma_offset_lines(column, text.len() as int, s.columns);
    lemma_padded_columns(drawn, count);
    lemma_offset_lines(column, cursor, s.columns);
    lemma_offset_bounds(column, cursor, s.columns);
    assert((column + cursor) / s.columns <= 86) by (nonlinear_arith)
        requires
            s.columns >= 3,
            0 <= column <= s.columns,
            0 <= cursor <= 256,
    ;
}

proof fn lemma_offset_lines(column: int, count: int, width: int)
    requires
        3 <= width <= 80,
        0 <= column <= width,
        0 <= count <= 256,
    ensures
        0 <= offset_line(0, column, count, width) <= 86,
        width >= 36 ==> offset_line(0, column, count, width) <= 8,
{
    lemma_offset_bounds(column, count, width);
    let n = column + count;
    if width >= 36 {
        assert(n / width <= 8) by (nonlinear_arith)
            requires
                width >= 36,
                n <= width + 256,
        ;
    }
    assert(n / width <= 86) by (nonlinear_arith)
        requires
            width >= 3,
            n <= width + 256,
    ;
}

proof fn lemma_padded_lands_at_offset(s: Screen, text: Seq<char>, count: int)
    requires
        count >= 0,
        s.room(4 * text.len() + count),
        is_plain_text(text),
    ensures
        s.print(text).padded(count).line == offset_line(
            s.line,
            s.column,
            text.len() + count,
            s.columns,
        ),
        s.print(text).padded(count).column == offset_column(
            s.column,
            text.len() + count,
            s.columns,
        ),
    decreases count,
{
    lemma_print(s, text);
    if count == 0 {
        lemma_plain_text_lands_at_offset(s, text);
    } else {
        lemma_padded_lands_at_offset(s, text, count - 1);
        let t = s.print(text).padded(count - 1);
        lemma_padded(s.print(text), count - 1);
        lemma_offset_step(s.column, text.len() + count - 1, s.columns);
        lemma_newline(t);
    }
}

/// The view after some pages up.
pub open spec fn pages_up(s: Screen, count: nat) -> Screen
    decreases count,
{
    if count == 0 {
        s
    } else {
        pages_up(s.scrolled_up(), (count - 1) as nat)
    }
}

/// Whether a line is on display.
pub open spec fn displays(s: Screen, line: int) -> bool {
    s.top <= line < s.top + 16
}

proof fn lemma_pages_reach(s: Screen, line: int) -> (count: nat)
    requires
        s.wf(),
        s.first <= line < s.top + 16,
    ensures
        displays(pages_up(s, count), line),
    decreases s.top,
{
    if line >= s.top {
        0
    } else {
        let rest = lemma_pages_reach(s.scrolled_up(), line);
        rest + 1
    }
}

/// The whole scrollback can be browsed: paging up from the live display brings
/// every line that the ring holds into view.
pub proof fn lemma_scrollback_can_be_browsed(s: Screen, line: int)
    requires
        s.wf(),
        s.top == live_top_of(s.last),
        s.first <= line <= s.last,
    ensures
        exists|count: nat| displays(#[trigger] pages_up(s, count), line),
{
    let count = lemma_pages_reach(s, line);
    assert(displays(pages_up(s, count), line));
}

/// Paging down takes a page up back, where there was a whole page to go up.
pub proof fn lemma_page_down_undoes_page_up(s: Screen)
    requires
        s.wf(),
        s.first + 15 <= s.top,
    ensures
        s.scrolled_up().scrolled_down() == s,
{
}

} // verus!
