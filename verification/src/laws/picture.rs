//! What the desktop shows, cell by cell.
use vstd::prelude::*;

use crate::console::{
    background, changes, cursor_place, drawn_terminal, fits, inverted, picture, Console,
};
use crate::desktop::{Desk, InputEvent, Rect};
use crate::laws::pointer::shows_at;
use crate::vga_buffer::{Screen, ScreenChar};

verus! {

pub open spec fn cell(character: char, color: u8) -> ScreenChar {
    ScreenChar { ascii_character: character as u8, color_code: color }
}

/// What a window shows `dx` right of and `dy` below its corner, the text cursor
/// apart: the title on the left of the top line, blue if the window is focused,
/// the box that closes it on the right, a border, and inside it a free line, the
/// sixteen lines on display and another free line.
pub open spec fn window_cell(
    width: int,
    index: int,
    focused: bool,
    screen: Screen,
    dx: int,
    dy: int,
) -> ScreenChar {
    let title = if index == 0 {
        " Terminal 1 - crabsh "@
    } else {
        " Terminal 2 - crabsh "@
    };
    if dy == 0 && dx == width - 4 {
        cell('[', 0x8f)
    } else if dy == 0 && dx == width - 3 {
        cell('x', 0x8f)
    } else if dy == 0 && dx == width - 2 {
        cell(']', 0x8f)
    } else if dy == 0 && dx < 21 && focused {
        cell(title[dx], 0x1f)
    } else if dy == 0 && dx < 21 {
        cell(title[dx], 0x8f)
    } else if dy == 0 || dy == 19 || dx == 0 || dx == width - 1 {
        cell(' ', 0x8f)
    } else if 2 <= dy < 18 && screen.top + (dy - 2) <= screen.last {
        screen.row(screen.top + (dy - 2))[dx - 1]
    } else {
        cell(' ', 0x07)
    }
}

/// Whether the text cursor is at a place of a window: on the line that it
/// writes, in the column that it writes or on the last one.
pub open spec fn cursor_at(width: int, screen: Screen, dx: int, dy: int) -> bool {
    &&& 2 <= dy < 18 && screen.top + (dy - 2) == screen.line
    &&& dx == screen.column + 1 && dx < width - 1 || dx == width - 2 && screen.column + 1 > dx
}

/// What is shown where no window is: the bar on top, and the icon.
pub open spec fn background_cell(x: int, y: int) -> ScreenChar {
    if y == 0 && x < 24 {
        cell(" CrabOS desktop   Ctrl+Q: open   Ctrl+C: close"@[x], 0x1f)
    } else if y == 0 && x < 70 {
        cell("Mouse: drag title bar; click terminal to focus"@[x - 24], 0x87)
    } else if y == 2 && 3 <= x < 13 {
        cell(" Terminal "@[x - 3], 0x1f)
    } else if 1 <= y < 4 && 3 <= x < 13 {
        cell(' ', 0x1f)
    } else {
        cell(' ', 0x07)
    }
}

proof fn lemma_index(x: int, y: int)
    requires
        0 <= x < 80,
        0 <= y < 25,
    ensures
        0 <= y * 80 + x < 2000,
        (y * 80 + x) / 80 == y,
        (y * 80 + x) % 80 == x,
{
}

proof fn lemma_background(x: int, y: int)
    requires
        0 <= x < 80,
        0 <= y < 25,
    ensures
        background()[y * 80 + x] == background_cell(x, y),
{
    lemma_index(x, y);
    reveal_strlit(" CrabOS desktop   Ctrl+Q: open   Ctrl+C: close");
    reveal_strlit("Mouse: drag title bar; click terminal to focus");
    reveal_strlit(" Terminal ");
}

proof fn lemma_window(
    frame: Seq<ScreenChar>,
    rect: Rect,
    index: int,
    focused: bool,
    screen: Screen,
    x: int,
    y: int,
)
    requires
        frame.len() == 2000,
        fits(rect),
        0 <= index < 2,
        screen.wf(),
        0 <= x < 80,
        0 <= y < 25,
    ensures
        ({
            let (left, top, width) = rect;
            let after = drawn_terminal(frame, Some(rect), index, focused, screen);
            let dx = x - left;
            let dy = y - top;
            let inside = 0 <= dx < width && 0 <= dy < 20;
            let shown = window_cell(width as int, index, focused, screen, dx, dy);
            &&& after.len() == 2000
            &&& !inside ==> after[y * 80 + x] == frame[y * 80 + x]
            &&& inside && focused && cursor_at(width as int, screen, dx, dy) ==> after[y * 80 + x]
                == inverted(shown)
            &&& inside && !(focused && cursor_at(width as int, screen, dx, dy)) ==> after[y * 80
                + x] == shown
        }),
{
    lemma_index(x, y);
    reveal_strlit(" Terminal 1 - crabsh ");
    reveal_strlit(" Terminal 2 - crabsh ");
    reveal_strlit("[x]");
    let (left, top, width) = rect;
    let place = cursor_place(rect, screen);
    if 0 <= screen.line - screen.top < 16 {
        let col = if screen.column < width - 2 {
            screen.column
        } else {
            width - 3
        };
        lemma_index(left + 1 + col, top + 2 + (screen.line - screen.top));
    }
}

/// The picture: the pointer above all, the focused window above the other, that
/// above the background, and in the focused window the text cursor as a cell
/// with its colors swapped.
pub proof fn lemma_picture(desk: Desk, screens: Seq<Screen>, x: int, y: int)
    requires
        desk.wf(),
        screens.len() == 2,
        screens[0].wf(),
        screens[1].wf(),
        0 <= x < 80,
        0 <= y < 25,
    ensures
        ({
            let shown = picture(desk, screens)[y * 80 + x];
            let front = desk.active;
            let back = 1 - front;
            if x == desk.pointer_x && y == desk.pointer_y {
                shown == cell('+', 0x1f)
            } else if shows_at(desk, front, x, y) {
                let (left, top, width) = desk.rect(front)->0;
                let inner = window_cell(
                    width as int,
                    front,
                    true,
                    screens[front],
                    x - left,
                    y - top,
                );
                shown == if cursor_at(width as int, screens[front], x - left, y - top) {
                    inverted(inner)
                } else {
                    inner
                }
            } else if shows_at(desk, back, x, y) {
                let (left, top, width) = desk.rect(back)->0;
                shown == window_cell(width as int, back, false, screens[back], x - left, y - top)
            } else {
                shown == background_cell(x, y)
            }
        }),
        picture(desk, screens).len() == 2000,
{
    lemma_index(x, y);
    lemma_background(x, y);
    reveal_strlit("+");
    let front = desk.active;
    let back = 1 - front;
    let below = drawn_terminal(background(), desk.rect(back), back, false, screens[back]);
    if let Some(rect) = desk.rect(back) {
        lemma_window(background(), rect, back, false, screens[back], x, y);
    }
    assert(below.len() == 2000);
    if let Some(rect) = desk.rect(front) {
        lemma_window(below, rect, front, true, screens[front], x, y);
    }
}

/// Swapping the colors of a cell keeps its character, and swaps back.
pub proof fn lemma_inverted(shown: ScreenChar)
    ensures
        inverted(shown).ascii_character == shown.ascii_character,
        inverted(shown).color_code as int / 16 == shown.color_code as int % 16,
        inverted(shown).color_code as int % 16 == shown.color_code as int / 16,
        inverted(inverted(shown)) == shown,
{
}

/// A press closes the window whose closing box the picture shows at the
/// pointer, once the pointer is elsewhere, and no other press closes one.
pub proof fn lemma_close_box_is_what_it_shows(
    desk: Desk,
    away: Desk,
    screens: Seq<Screen>,
    index: int,
)
    requires
        desk.wf(),
        screens.len() == 2,
        screens[0].wf(),
        screens[1].wf(),
        0 <= index < 2,
        away == (Desk { pointer_x: away.pointer_x, pointer_y: away.pointer_y, ..desk }),
        away.wf(),
        away.pointer_x != desk.pointer_x || away.pointer_y != desk.pointer_y,
        desk.pressed().1 == Some(InputEvent::CloseTerminal(index as usize)),
    ensures
        ({
            let shown = picture(away, screens)[desk.pointer_y * 80 + desk.pointer_x];
            &&& shown == cell('[', 0x8f) || shown == cell('x', 0x8f) || shown == cell(']', 0x8f)
            &&& shows_at(desk, index, desk.pointer_x, desk.pointer_y)
            &&& desk.pressed().0.active == index
        }),
{
    lemma_picture(away, screens, desk.pointer_x, desk.pointer_y);
}

/// A press opens a terminal only where the picture shows the icon.
pub proof fn lemma_icon_is_what_it_shows(desk: Desk, away: Desk, screens: Seq<Screen>)
    requires
        desk.wf(),
        screens.len() == 2,
        screens[0].wf(),
        screens[1].wf(),
        away == (Desk { pointer_x: away.pointer_x, pointer_y: away.pointer_y, ..desk }),
        away.wf(),
        away.pointer_x != desk.pointer_x || away.pointer_y != desk.pointer_y,
        desk.pressed().1 == Some(InputEvent::OpenTerminal),
    ensures
        picture(away, screens)[desk.pointer_y * 80 + desk.pointer_x].color_code == 0x1f,
        !shows_at(desk, 0, desk.pointer_x, desk.pointer_y),
        !shows_at(desk, 1, desk.pointer_x, desk.pointer_y),
{
    lemma_picture(away, screens, desk.pointer_x, desk.pointer_y);
}

/// Each window shows the terminal of its own number.
pub proof fn lemma_windows_show_their_terminals(console: Console)
    ensures
        console.screens().len() == 2,
        console.screens()[0] == console.terminals@[0]@,
        console.screens()[1] == console.terminals@[1]@,
{
}

/// Only cells that differ from what was drawn before are drawn, each once and
/// in order, unless nothing was drawn before: then all are.
pub proof fn lemma_nothing_drawn_twice(
    before: Seq<ScreenChar>,
    valid: bool,
    frame: Seq<ScreenChar>,
    n: int,
)
    requires
        before.len() == 2000,
        frame.len() == 2000,
        0 <= n <= 2000,
    ensures
        ({
            let drawn = changes(before, valid, frame, n);
            &&& forall|k: int|
                0 <= k < drawn.len() ==> {
                    &&& (#[trigger] drawn[k]).index < n
                    &&& drawn[k].cell == frame[drawn[k].index as int]
                    &&& valid ==> before[drawn[k].index as int] != frame[drawn[k].index as int]
                }
            &&& forall|j: int, k: int|
                0 <= j < k < drawn.len() ==> (#[trigger] drawn[j]).index < (
                #[trigger] drawn[k]).index
            &&& !valid ==> drawn.len() == n
        }),
    decreases n,
{
    if n > 0 {
        lemma_nothing_drawn_twice(before, valid, frame, n - 1);
        let rest = changes(before, valid, frame, n - 1);
        let drawn = changes(before, valid, frame, n);
        assert forall|k: int| 0 <= k < drawn.len() implies {
            &&& (#[trigger] drawn[k]).index < n
            &&& drawn[k].cell == frame[drawn[k].index as int]
            &&& valid ==> before[drawn[k].index as int] != frame[drawn[k].index as int]
        } by {
            if k < rest.len() {
                assert(drawn[k] == rest[k]);
            }
        }
        assert forall|j: int, k: int| 0 <= j < k < drawn.len() implies (
        #[trigger] drawn[j]).index < (#[trigger] drawn[k]).index by {
            assert(drawn[j] == rest[j]);
            if k < rest.len() {
                assert(drawn[k] == rest[k]);
            }
        }
    }
}

} // verus!
