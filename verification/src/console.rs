//! The two terminals, and the picture of the desktop with their windows.
use vstd::prelude::*;

use crate::desktop::{layout, Desk, Desktop, Rect};
use crate::vga_buffer::{
    attribute, attribute_byte, blank, blank_cell, is_ascii_text, live_top_of, Color, Screen,
    ScreenChar, Writer, BUFFER_WIDTH, SCROLLBACK_LINES, VIEW_HEIGHT,
};

verus! {

/// Cells on the screen.
pub const SCREEN_CELLS: usize = 2000;

pub struct Console {
    pub terminals: [Writer; 2],
    pub active: usize,
    /// The cells drawn last, once any were.
    pub previous: [ScreenChar; 2000],
    pub valid: bool,
}

/// The terminal that an index means: any index but 0 is the second.
pub open spec fn terminal_index(index: usize) -> int {
    if index > 1 {
        1
    } else {
        index as int
    }
}

impl Console {
    pub open spec fn wf(&self) -> bool {
        &&& self.active < 2
        &&& self.terminals@[0]@.wf()
        &&& self.terminals@[1]@.wf()
    }
}

pub fn set_active_terminal(console: &mut Console, index: usize)
    ensures
        *final(console) == (Console {
            active: terminal_index(index) as usize,
            ..*old(console)
        }),
{
    console.active = if index > 1 {
        1
    } else {
        index
    };
}

pub fn active_terminal(console: &Console) -> (index: usize)
    ensures
        index == console.active,
{
    console.active
}

pub fn set_terminal_columns(console: &mut Console, index: usize, columns: usize)
    requires
        1 <= columns <= 80,
    ensures
        final(console).terminals@ == old(console).terminals@.update(
            terminal_index(index),
            final(console).terminals@[terminal_index(index)],
        ),
        final(console).terminals@[terminal_index(index)]@ == (Screen {
            columns: columns as int,
            ..old(console).terminals@[terminal_index(index)]@
        }),
        *final(console) == (Console { terminals: final(console).terminals, ..*old(console) }),
        old(console).wf() ==> final(console).wf(),
{
    let i: usize = if index > 1 {
        1
    } else {
        index
    };
    console.terminals[i].set_columns(columns);
}

impl Console {
    pub fn new() -> (console: Console)
        ensures
            console.wf(),
            console.terminals@[0]@ == (Screen { columns: 80, ..console.terminals@[0]@.cleared() }),
            console.terminals@[1]@ == (Screen { columns: 80, ..console.terminals@[1]@.cleared() }),
            console.active == 0,
            !console.valid,
    {
        let empty: ScreenChar = blank_cell();
        Console {
            terminals: [Writer::new(), Writer::new()],
            active: 0,
            previous: [empty; 2000],
            valid: false,
        }
    }
}

/// The writer of the active terminal.
pub fn with_writer(console: &mut Console) -> (writer: &mut Writer)
    requires
        old(console).active < 2,
    ensures
        *writer == old(console).terminals@[old(console).active as int],
        final(console).terminals@ == old(console).terminals@.update(
            old(console).active as int,
            *final(writer),
        ),
        *final(console) == (Console { terminals: final(console).terminals, ..*old(console) }),
{
    let index: usize = console.active;
    &mut console.terminals[index]
}

/// A picture with a text drawn into one row of it.
pub open spec fn drawn_text(
    frame: Seq<ScreenChar>,
    row: int,
    col: int,
    text: Seq<char>,
    color: u8,
) -> Seq<ScreenChar> {
    Seq::new(
        2000,
        |i: int|
            if i / 80 == row && col <= i % 80 < col + text.len() {
                ScreenChar { ascii_character: text[i % 80 - col] as u8, color_code: color }
            } else {
                frame[i]
            },
    )
}

/// A picture with a rectangle filled.
pub open spec fn filled(
    frame: Seq<ScreenChar>,
    row: int,
    col: int,
    height: int,
    width: int,
    color: u8,
) -> Seq<ScreenChar> {
    Seq::new(
        2000,
        |i: int|
            if row <= i / 80 < row + height && col <= i % 80 < col + width {
                ScreenChar { ascii_character: 0x20, color_code: color }
            } else {
                frame[i]
            },
    )
}

pub open spec fn title(index: int) -> Seq<char> {
    if index == 0 {
        " Terminal 1 - crabsh "@
    } else {
        " Terminal 2 - crabsh "@
    }
}

/// A picture with an empty window: a border, the inside, the title in the
/// color of the focus, and the box that closes the window.
pub open spec fn drawn_window(
    frame: Seq<ScreenChar>,
    rect: Rect,
    index: int,
    focused: bool,
) -> Seq<ScreenChar> {
    let (x, y, width) = rect;
    let border = attribute(Color::White, Color::DarkGray);
    let bordered = filled(frame, y as int, x as int, 20, width as int, border);
    let inside = attribute(Color::LightGray, Color::Black);
    let empty = filled(bordered, y + 1, x + 1, 18, width - 2, inside);
    let bar = attribute(
        Color::White,
        if focused {
            Color::Blue
        } else {
            Color::DarkGray
        },
    );
    drawn_text(
        drawn_text(empty, y as int, x as int, title(index), bar),
        y as int,
        x + width - 4,
        "[x]"@,
        border,
    )
}

/// A picture with the sixteen lines of a terminal from its view's top on, as
/// far as there are so many.
pub open spec fn drawn_lines(frame: Seq<ScreenChar>, rect: Rect, screen: Screen) -> Seq<ScreenChar> {
    let (x, y, width) = rect;
    Seq::new(
        2000,
        |i: int|
            {
                let row = i / 80 - (y + 2);
                let col = i % 80 - (x + 1);
                let line = screen.top + row;
                if 0 <= row < 16 && 0 <= col < width - 2 && line <= screen.last {
                    screen.row(line)[col]
                } else {
                    frame[i]
                }
            },
    )
}

/// A cell with its two colors swapped.
pub open spec fn inverted(cell: ScreenChar) -> ScreenChar {
    ScreenChar { color_code: (cell.color_code % 16 * 16 + cell.color_code / 16) as u8, ..cell }
}

/// Whether the line of the cursor is among those shown.
pub open spec fn shows_cursor(screen: Screen) -> bool {
    0 <= screen.line - screen.top < 16
}

/// The cell of the cursor. A cursor that waits behind the last column shows on
/// that column.
pub open spec fn cursor_place(rect: Rect, screen: Screen) -> int {
    let (x, y, width) = rect;
    let col = if screen.column < width - 2 {
        screen.column
    } else {
        width - 3
    };
    (y + 2 + (screen.line - screen.top)) * 80 + x + 1 + col
}

/// A picture with the text cursor of a terminal, where its line is shown.
pub open spec fn drawn_cursor(frame: Seq<ScreenChar>, rect: Rect, screen: Screen) -> Seq<
    ScreenChar,
> {
    let place = cursor_place(rect, screen);
    if shows_cursor(screen) {
        frame.update(place, inverted(frame[place]))
    } else {
        frame
    }
}

/// A picture with a terminal's window, if it is open.
pub open spec fn drawn_terminal(
    frame: Seq<ScreenChar>,
    rect: Option<Rect>,
    index: int,
    focused: bool,
    screen: Screen,
) -> Seq<ScreenChar> {
    match rect {
        Some(rect) => {
            let lines = drawn_lines(drawn_window(frame, rect, index, focused), rect, screen);
            if focused {
                drawn_cursor(lines, rect, screen)
            } else {
                lines
            }
        },
        None => frame,
    }
}

/// The desktop without windows: the bar on top, and the icon that opens a
/// terminal.
pub open spec fn background() -> Seq<ScreenChar> {
    let icon = attribute(Color::White, Color::Blue);
    let bar = drawn_text(
        Seq::new(2000, |i: int| blank()),
        0,
        0,
        " CrabOS desktop   Ctrl+Q: open   Ctrl+C: close"@,
        attribute(Color::White, Color::Blue),
    );
    let hint = drawn_text(
        bar,
        0,
        24,
        "Mouse: drag title bar; click terminal to focus"@,
        attribute(Color::LightGray, Color::DarkGray),
    );
    drawn_text(filled(hint, 1, 3, 3, 10, icon), 2, 3, " Terminal "@, icon)
}

/// The picture of a desktop with two terminals: the focused window above the
/// other, and the mouse pointer above all.
pub open spec fn picture(desk: Desk, screens: Seq<Screen>) -> Seq<ScreenChar> {
    let front = desk.active;
    let back = 1 - front;
    let below = drawn_terminal(background(), desk.rect(back), back, false, screens[back]);
    let windows = drawn_terminal(below, desk.rect(front), front, true, screens[front]);
    drawn_text(
        windows,
        desk.pointer_y,
        desk.pointer_x,
        "+"@,
        attribute(Color::White, Color::Blue),
    )
}

fn draw_cell(
    frame: &mut [ScreenChar; 2000],
    row: usize,
    col: usize,
    text: &str,
    foreground: Color,
    background: Color,
)
    requires
        row < 25,
        col <= 80,
        is_ascii_text(text@),
    ensures
        final(frame)@ == drawn_text(
            old(frame)@,
            row as int,
            col as int,
            text@,
            attribute(foreground, background),
        ),
{
    let color: u8 = attribute_byte(foreground, background);
    let len: usize = text.unicode_len();
    let mut offset: usize = 0;
    while offset < len && col + offset < BUFFER_WIDTH
        invariant
            offset <= len,
            len == text@.len(),
            row < 25,
            col + offset <= 80,
            is_ascii_text(text@),
            color == attribute(foreground, background),
            frame@.len() == 2000,
            forall|i: int|
                0 <= i < 2000 ==> #[trigger] frame@[i] == (if i / 80 == row && col <= i % 80 < col
                    + offset {
                    ScreenChar { ascii_character: text@[i % 80 - col] as u8, color_code: color }
                } else {
                    old(frame)@[i]
                }),
        decreases len - offset,
    {
        let c: char = text.get_char(offset);
        frame[row * BUFFER_WIDTH + col + offset] = ScreenChar {
            ascii_character: c as u8,
            color_code: color,
        };
        offset += 1;
    }
    assert(frame@ =~= drawn_text(
        old(frame)@,
        row as int,
        col as int,
        text@,
        attribute(foreground, background),
    ));
}

fn fill(
    frame: &mut [ScreenChar; 2000],
    row: usize,
    col: usize,
    height: usize,
    width: usize,
    foreground: Color,
    background: Color,
)
    requires
        row + height <= 25,
        col + width <= 80,
    ensures
        final(frame)@ == filled(
            old(frame)@,
            row as int,
            col as int,
            height as int,
            width as int,
            attribute(foreground, background),
        ),
{
    let cell = ScreenChar {
        ascii_character: 0x20,
        color_code: attribute_byte(foreground, background),
    };
    let mut r: usize = 0;
    while r < height
        invariant
            r <= height,
            row + height <= 25,
            col + width <= 80,
            frame@.len() == 2000,
            forall|i: int|
                0 <= i < 2000 ==> #[trigger] frame@[i] == (if row <= i / 80 < row + r && col <= i
                    % 80 < col + width {
                    cell
                } else {
                    old(frame)@[i]
                }),
        decreases height - r,
    {
        let mut c: usize = 0;
        while c < width
            invariant
                c <= width,
                r < height,
                row + height <= 25,
                col + width <= 80,
                frame@.len() == 2000,
                forall|i: int|
                    0 <= i < 2000 ==> #[trigger] frame@[i] == (if col <= i % 80 < col + width && (
                    row <= i / 80 < row + r || i / 80 == row + r && i % 80 < col + c) {
                        cell
                    } else {
                        old(frame)@[i]
                    }),
            decreases width - c,
        {
            frame[(row + r) * BUFFER_WIDTH + col + c] = cell;
            c += 1;
        }
        r += 1;
    }
    assert(frame@ =~= filled(
        old(frame)@,
        row as int,
        col as int,
        height as int,
        width as int,
        attribute(foreground, background),
    ));
}

/// Whether a window is on the screen.
pub open spec fn fits(rect: Rect) -> bool {
    &&& 0 <= rect.0
    &&& rect.0 + rect.2 <= 80
    &&& 1 <= rect.1
    &&& rect.1 + 20 <= 25
    &&& 25 <= rect.2
}

fn draw_window(frame: &mut [ScreenChar; 2000], rect: Rect, index: usize, focused: bool)
    requires
        fits(rect),
    ensures
        final(frame)@ == drawn_window(old(frame)@, rect, index as int, focused),
{
    let x: usize = rect.0 as usize;
    let y: usize = rect.1 as usize;
    let width: usize = rect.2 as usize;
    proof {
        reveal_strlit(" Terminal 1 - crabsh ");
        reveal_strlit(" Terminal 2 - crabsh ");
        reveal_strlit("[x]");
    }
    fill(frame, y, x, 20, width, Color::White, Color::DarkGray);
    fill(frame, y + 1, x + 1, 18, width - 2, Color::LightGray, Color::Black);
    let title: &str = if index == 0 {
        " Terminal 1 - crabsh "
    } else {
        " Terminal 2 - crabsh "
    };
    let bar: Color = if focused {
        Color::Blue
    } else {
        Color::DarkGray
    };
    draw_cell(frame, y, x, title, Color::White, bar);
    draw_cell(frame, y, x + width - 4, "[x]", Color::White, Color::DarkGray);
}

fn draw_lines(frame: &mut [ScreenChar; 2000], rect: Rect, terminal: &Writer)
    requires
        fits(rect),
        terminal@.wf(),
    ensures
        final(frame)@ == drawn_lines(old(frame)@, rect, terminal@),
{
    let x: usize = rect.0 as usize;
    let y: usize = rect.1 as usize;
    let inside: usize = rect.2 as usize - 2;
    let ghost screen = terminal@;
    let top: usize = terminal.view_top;
    let mut row: usize = 0;
    while row < VIEW_HEIGHT && row <= terminal.last_line - top
        invariant
            row <= 16,
            screen == terminal@,
            screen.wf(),
            fits(rect),
            x == rect.0,
            y == rect.1,
            inside == rect.2 - 2,
            top == screen.top,
            top <= screen.last,
            row <= screen.last - top + 1,
            frame@.len() == 2000,
            forall|i: int|
                0 <= i < 2000 ==> #[trigger] frame@[i] == (if y + 2 <= i / 80 < y + 2 + row && x + 1
                    <= i % 80 < x + 1 + inside {
                    screen.row(top + (i / 80 - (y + 2)))[i % 80 - (x + 1)]
                } else {
                    old(frame)@[i]
                }),
        decreases 16 - row,
    {
        let line: usize = top + row;
        let slot: usize = line % SCROLLBACK_LINES;
        let mut col: usize = 0;
        while col < inside
            invariant
                col <= inside,
                row < 16,
                screen == terminal@,
                screen.wf(),
                fits(rect),
                x == rect.0,
                y == rect.1,
                inside == rect.2 - 2,
                line == top + row,
                slot == line % 128,
                frame@.len() == 2000,
                forall|i: int|
                    0 <= i < 2000 ==> #[trigger] frame@[i] == (if x + 1 <= i % 80 < x + 1 + inside
                        && (y + 2 <= i / 80 < y + 2 + row || i / 80 == y + 2 + row && i % 80 < x + 1
                        + col) {
                        screen.row(top + (i / 80 - (y + 2)))[i % 80 - (x + 1)]
                    } else {
                        old(frame)@[i]
                    }),
            decreases inside - col,
        {
            let cell: ScreenChar = terminal.lines[slot][col];
            assert(cell == screen.row(line as int)[col as int]);
            frame[(y + 2 + row) * BUFFER_WIDTH + x + 1 + col] = cell;
            col += 1;
        }
        row += 1;
    }
    assert(frame@ =~= drawn_lines(old(frame)@, rect, terminal@));
}

fn draw_cursor(frame: &mut [ScreenChar; 2000], rect: Rect, terminal: &Writer)
    requires
        fits(rect),
        terminal@.wf(),
    ensures
        final(frame)@ == drawn_cursor(old(frame)@, rect, terminal@),
{
    let inside: usize = rect.2 as usize - 2;
    let line: usize = terminal.cursor.line;
    let column: usize = terminal.cursor.column;
    let top: usize = terminal.view_top;
    if line >= top && line - top < VIEW_HEIGHT {
        let col: usize = if column < inside {
            column
        } else {
            inside - 1
        };
        let row: usize = line - top;
        let place: usize = (rect.1 as usize + 2 + row) * BUFFER_WIDTH + rect.0 as usize + 1 + col;
        let cell: ScreenChar = frame[place];
        frame[place] = ScreenChar {
            ascii_character: cell.ascii_character,
            color_code: cell.color_code % 16 * 16 + cell.color_code / 16,
        };
    }
}

fn draw_terminal(
    frame: &mut [ScreenChar; 2000],
    rect: Option<Rect>,
    index: usize,
    focused: bool,
    terminal: &Writer,
)
    requires
        rect matches Some(rect) ==> fits(rect),
        terminal@.wf(),
    ensures
        final(frame)@ == drawn_terminal(
            old(frame)@,
            rect,
            index as int,
            focused,
            terminal@,
        ),
{
    if let Some(rect) = rect {
        draw_window(frame, rect, index, focused);
        draw_lines(frame, rect, terminal);
        if focused {
            draw_cursor(frame, rect, terminal);
        }
    }
}

fn draw_background(frame: &mut [ScreenChar; 2000])
    ensures
        final(frame)@ == background(),
{
    let empty: ScreenChar = blank_cell();
    *frame = [empty; 2000];
    assert(frame@ =~= Seq::new(2000, |i: int| blank()));
    proof {
        reveal_strlit(" CrabOS desktop   Ctrl+Q: open   Ctrl+C: close");
        reveal_strlit("Mouse: drag title bar; click terminal to focus");
        reveal_strlit(" Terminal ");
    }
    draw_cell(
        frame,
        0,
        0,
        " CrabOS desktop   Ctrl+Q: open   Ctrl+C: close",
        Color::White,
        Color::Blue,
    );
    draw_cell(
        frame,
        0,
        24,
        "Mouse: drag title bar; click terminal to focus",
        Color::LightGray,
        Color::DarkGray,
    );
    fill(frame, 1, 3, 3, 10, Color::White, Color::Blue);
    draw_cell(frame, 2, 3, " Terminal ", Color::White, Color::Blue);
}

/// Draw the desktop with both terminals.
pub fn render_desktop(console: &Console, desktop: &Desktop) -> (frame: [ScreenChar; 2000])
    requires
        console.wf(),
        desktop.wf(),
    ensures
        frame@ == picture(desktop@, console.screens()),
{
    let empty: ScreenChar = blank_cell();
    let mut frame: [ScreenChar; 2000] = [empty; 2000];
    draw_background(&mut frame);
    let rects = layout(desktop);
    let front: usize = desktop.active;
    let back: usize = 1 - front;
    assert(rects@[back as int] == desktop@.rect(back as int));
    assert(rects@[front as int] == desktop@.rect(front as int));
    draw_terminal(&mut frame, rects[back], back, false, &console.terminals[back]);
    draw_terminal(&mut frame, rects[front], front, true, &console.terminals[front]);
    proof {
        reveal_strlit("+");
    }
    draw_cell(
        &mut frame,
        desktop.pointer_y as usize,
        desktop.pointer_x as usize,
        "+",
        Color::White,
        Color::Blue,
    );
    frame
}

impl Console {
    pub open spec fn screens(&self) -> Seq<Screen> {
        seq![self.terminals@[0]@, self.terminals@[1]@]
    }
}

/// One cell to draw.
#[derive(Clone, Copy, Debug, PartialEq, Eq, Structural)]
pub struct Change {
    pub index: usize,
    pub cell: ScreenChar,
}

/// The cells among the first `n` of a picture that differ from what was drawn
/// before; all of them, if nothing was.
pub open spec fn changes(
    before: Seq<ScreenChar>,
    valid: bool,
    frame: Seq<ScreenChar>,
    n: int,
) -> Seq<Change>
    decreases n,
{
    if n <= 0 {
        Seq::empty()
    } else {
        let rest = changes(before, valid, frame, n - 1);
        if !valid || before[n - 1] != frame[n - 1] {
            rest.push(Change { index: (n - 1) as usize, cell: frame[n - 1] })
        } else {
            rest
        }
    }
}

/// Redraw the console and desktop without changing their contents: the cells
/// to draw since the last time.
pub fn refresh(console: &mut Console, desktop: &Desktop) -> (drawn: Vec<Change>)
    requires
        old(console).wf(),
        desktop.wf(),
    ensures
        drawn@ == changes(
            old(console).previous@,
            old(console).valid,
            picture(desktop@, old(console).screens()),
            2000,
        ),
        final(console).previous@ == picture(desktop@, old(console).screens()),
        final(console).valid,
        final(console).terminals == old(console).terminals,
        final(console).active == old(console).active,
{
    let frame: [ScreenChar; 2000] = render_desktop(console, desktop);
    let mut drawn: Vec<Change> = Vec::new();
    let mut i: usize = 0;
    while i < SCREEN_CELLS
        invariant
            i <= 2000,
            drawn@ == changes(
                console.previous@,
                console.valid,
                frame@,
                i as int,
            ),
        decreases 2000 - i,
    {
        let before: ScreenChar = console.previous[i];
        let now: ScreenChar = frame[i];
        if !console.valid || before != now {
            drawn.push(Change { index: i, cell: now });
        }
        i += 1;
    }
    console.previous = frame;
    console.valid = true;
    drawn
}

/// The picture on a screen after some cells were drawn.
pub open spec fn applied(screen: Seq<ScreenChar>, drawn: Seq<Change>) -> Seq<ScreenChar>
    decreases drawn.len(),
{
    if drawn.len() == 0 {
        screen
    } else {
        applied(screen, drawn.drop_last()).update(drawn.last().index as int, drawn.last().cell)
    }
}

proof fn lemma_applied(
    screen: Seq<ScreenChar>,
    before: Seq<ScreenChar>,
    valid: bool,
    frame: Seq<ScreenChar>,
    n: int,
)
    requires
        0 <= n <= 2000,
        screen.len() == 2000,
        before.len() == 2000,
        frame.len() == 2000,
        valid ==> screen == before,
    ensures
        applied(screen, changes(before, valid, frame, n)) == frame.take(n) + screen.skip(n),
    decreases n,
{
    if n == 0 {
        assert(frame.take(0) + screen.skip(0) =~= screen);
    } else {
        lemma_applied(screen, before, valid, frame, n - 1);
        let rest = changes(before, valid, frame, n - 1);
        let all = changes(before, valid, frame, n);
        if !valid || before[n - 1] != frame[n - 1] {
            assert(all.drop_last() =~= rest);
        }
        assert(applied(screen, all) =~= frame.take(n) + screen.skip(n));
    }
}

/// Drawing only the cells that changed leaves the whole picture on the screen.
pub proof fn lemma_refresh_is_complete(
    screen: Seq<ScreenChar>,
    before: Seq<ScreenChar>,
    valid: bool,
    frame: Seq<ScreenChar>,
)
    requires
        screen.len() == 2000,
        before.len() == 2000,
        frame.len() == 2000,
        valid ==> screen == before,
    ensures
        applied(screen, changes(before, valid, frame, 2000)) == frame,
{
    lemma_applied(screen, before, valid, frame, 2000);
    assert(frame.take(2000) + screen.skip(2000) =~= frame);
}

/// At the live end of the output the lines shown end at the last line: row `row`
/// of the window's inside holds the line that is as far above the last one.
pub proof fn lemma_live_display_ends_at_last_line(
    frame: Seq<ScreenChar>,
    rect: Rect,
    screen: Screen,
    row: int,
    col: int,
)
    requires
        fits(rect),
        screen.wf(),
        screen.top == live_top_of(screen.last),
        0 <= row < 16,
        0 <= col < rect.2 - 2,
    ensures
        screen.top <= screen.last <= screen.top + 15,
        screen.last >= 15 ==> drawn_lines(frame, rect, screen)[(rect.1 + 2 + row) * 80 + rect.0 + 1
            + col] == screen.row(screen.last - 15 + row)[col],
        row <= screen.last < 15 ==> drawn_lines(frame, rect, screen)[(rect.1 + 2 + row) * 80
            + rect.0 + 1 + col] == screen.row(row)[col],
{
    let i = (rect.1 + 2 + row) * 80 + rect.0 + 1 + col;
    assert(i / 80 == rect.1 + 2 + row && i % 80 == rect.0 + 1 + col);
}

/// At the live end of the output the focused terminal's cursor is drawn: the
/// cell under it has its colors swapped. The cursor has to be among the last
/// sixteen lines.
pub proof fn lemma_live_cursor_drawn(
    frame: Seq<ScreenChar>,
    rect: Rect,
    index: int,
    screen: Screen,
)
    requires
        fits(rect),
        screen.wf(),
        screen.top == live_top_of(screen.last),
        screen.last - 15 <= screen.line <= screen.last,
    ensures
        ({
            let lines = drawn_lines(drawn_window(frame, rect, index, true), rect, screen);
            let place = cursor_place(rect, screen);
            &&& shows_cursor(screen)
            &&& 0 <= place < 2000
            &&& drawn_terminal(frame, Some(rect), index, true, screen)[place] == inverted(
                lines[place],
            )
        }),
{
}

} // verus!
