//! What the mouse does to windows.
use vstd::prelude::*;

use crate::desktop::{Desk, InputEvent};

verus! {

/// Whether a window is open and a cell lies in its frame.
pub open spec fn shows_at(desk: Desk, index: int, x: int, y: int) -> bool {
    desk.rect(index) matches Some((left, top, width)) && left <= x && x < left + width && top <= y
        && y < top + 20
}

/// A press at a cell that the focused window shows leaves the focus there; the
/// other window gets it exactly where it shows the cell and the focused one does
/// not. A press moves neither pointer nor windows, and opens and closes nothing by
/// itself.
pub proof fn lemma_press_goes_to_the_window_in_front(desk: Desk)
    requires
        desk.wf(),
    ensures
        ({
            let x = desk.pointer_x;
            let y = desk.pointer_y;
            let (after, event) = desk.pressed();
            let front = shows_at(desk, desk.active, x, y);
            let behind = shows_at(desk, 1 - desk.active, x, y);
            &&& front ==> after.active == desk.active
            &&& (after.active == 1 - desk.active) == (behind && !front)
            &&& !front && !behind ==> after.active == desk.active
            &&& after.windows == desk.windows && after.open == desk.open
            &&& after.pointer_x == x && after.pointer_y == y
            &&& after.motion_x == desk.motion_x && after.motion_y == desk.motion_y
        }),
{
}

/// A press on the top line of a window grips it where the pointer is, unless it
/// is on the three cells that end one cell before the right corner: these ask to
/// close that very window. Elsewhere in a window nothing is gripped or asked for.
pub proof fn lemma_title_bar_grips(desk: Desk, index: int)
    requires
        desk.wf(),
        0 <= index < 2,
        shows_at(desk, index, desk.pointer_x, desk.pointer_y),
        index == desk.active || !shows_at(desk, desk.active, desk.pointer_x, desk.pointer_y),
    ensures
        ({
            let (left, top, width) = desk.rect(index)->0;
            let right = left + width - 1;
            let on_title = desk.pointer_y == top;
            let on_box = on_title && right - 3 <= desk.pointer_x <= right - 1;
            let (after, event) = desk.pressed();
            &&& on_box ==> event == Some(InputEvent::CloseTerminal(index as usize))
            &&& !on_box ==> event is None
            &&& (after.drag is Some) == (on_title && !on_box)
            &&& after.drag matches Some((held, dx, dy)) ==> held == index && left + dx
                == desk.pointer_x && top + dy == desk.pointer_y
        }),
{
}

/// Where no window shows, a press asks for a terminal exactly on the icon, ten
/// cells wide and three high.
pub proof fn lemma_icon_opens_terminal(desk: Desk)
    requires
        desk.wf(),
        !shows_at(desk, 0, desk.pointer_x, desk.pointer_y),
        !shows_at(desk, 1, desk.pointer_x, desk.pointer_y),
    ensures
        ({
            let on_icon = 3 <= desk.pointer_x < 3 + 10 && 1 <= desk.pointer_y < 1 + 3;
            let (after, event) = desk.pressed();
            &&& on_icon ==> event == Some(InputEvent::OpenTerminal)
            &&& !on_icon ==> event is None
            &&& after.drag is None
            &&& after.active == desk.active
        }),
{
}

proof fn lemma_flags(flags: u8, buttons: u8)
    ensures
        (flags & 0x10 != 0) == (flags / 16 % 2 == 1),
        (flags & 0x20 != 0) == (flags / 32 % 2 == 1),
        (flags & 8 == 0) == (flags / 8 % 2 == 0),
        (flags & 1 != 0) == (flags % 2 == 1),
        (buttons & 1 == 0) == (buttons % 2 == 0),
        flags & 7 == flags % 8,
{
    assert((flags & 0x10 != 0) == (flags / 16 % 2 == 1)) by (bit_vector);
    assert((flags & 0x20 != 0) == (flags / 32 % 2 == 1)) by (bit_vector);
    assert((flags & 8 == 0) == (flags / 8 % 2 == 0)) by (bit_vector);
    assert((flags & 1 != 0) == (flags % 2 == 1)) by (bit_vector);
    assert((buttons & 1 == 0) == (buttons % 2 == 0)) by (bit_vector);
    assert(flags & 7 == flags % 8) by (bit_vector);
}

/// The counts that a packet carries: its second byte to the right and its third
/// up, each 256 less where the fifth or sixth bit of the first byte is set.
pub open spec fn counts_right(flags: u8, x: u8) -> int {
    x as int - 256 * (flags as int / 16 % 2)
}

pub open spec fn counts_up(flags: u8, y: u8) -> int {
    y as int - 256 * (flags as int / 32 % 2)
}

/// No count of the mouse is lost: away from the edges, the cells that the pointer
/// moves, eight counts each to the right and sixteen each up, and the counts left
/// over add up to what was left over before and what the packet carries. What is
/// left over is less than a cell, and at the edges the pointer stops.
pub proof fn lemma_counts_move_pointer(desk: Desk, flags: u8, x: u8, y: u8)
    requires
        desk.wf(),
    ensures
        ({
            let after = desk.packet(flags, x, y).0;
            let right = desk.motion_x + counts_right(flags, x);
            let up = desk.motion_y + counts_up(flags, y);
            &&& -8 < after.motion_x < 8 && -16 < after.motion_y < 16
            &&& right >= 0 ==> after.motion_x >= 0 && after.pointer_x >= desk.pointer_x
            &&& right <= 0 ==> after.motion_x <= 0 && after.pointer_x <= desk.pointer_x
            &&& up >= 0 ==> after.motion_y >= 0 && after.pointer_y <= desk.pointer_y
            &&& up <= 0 ==> after.motion_y <= 0 && after.pointer_y >= desk.pointer_y
            &&& 0 < after.pointer_x < 79 ==> 8 * (after.pointer_x - desk.pointer_x)
                + after.motion_x == right
            &&& 0 < after.pointer_y < 24 ==> 16 * (desk.pointer_y - after.pointer_y)
                + after.motion_y == up
            &&& after.pointer_x == 79 ==> 8 * (79 - desk.pointer_x) + after.motion_x <= right
            &&& after.pointer_x == 0 ==> 8 * (0 - desk.pointer_x) + after.motion_x >= right
            &&& after.pointer_y == 0 ==> 16 * desk.pointer_y + after.motion_y <= up
            &&& after.pointer_y == 24 ==> 16 * (desk.pointer_y - 24) + after.motion_y >= up
            &&& (right - after.motion_x) % 8 == 0 && (up - after.motion_y) % 16 == 0
        }),
{
    lemma_flags(flags, desk.buttons);
}

/// Only the lowest bit of the first byte is the button that presses, and it
/// presses when it goes down, not while it stays down. The packet itself keeps
/// the three buttons for the next one.
pub proof fn lemma_button_presses_once(desk: Desk, flags: u8, x: u8, y: u8)
    requires
        desk.wf(),
    ensures
        ({
            let (after, event) = desk.packet(flags, x, y);
            let there = Desk {
                pointer_x: after.pointer_x,
                pointer_y: after.pointer_y,
                motion_x: after.motion_x,
                motion_y: after.motion_y,
                ..desk
            };
            &&& after.buttons == flags % 8
            &&& after.packet.len() == 0
            &&& flags % 2 == 1 && desk.buttons % 2 == 0 ==> event == there.pressed().1
                && after.active == there.pressed().0.active && after.drag == there.pressed().0.drag
            &&& flags % 2 == 0 || desk.buttons % 2 == 1 ==> event is None && after.active
                == desk.active
            &&& flags % 2 == 0 ==> after.drag is None && after.windows == desk.windows
            &&& flags % 2 == 1 && desk.buttons % 2 == 1 ==> after.drag == desk.drag
            &&& after.open == desk.open
        }),
{
    lemma_flags(flags, desk.buttons);
}

/// A window that is held goes with the pointer, so that it is held at the same
/// cell, wherever this leaves it on the screen; the other one stays.
pub proof fn lemma_held_window_follows(desk: Desk, flags: u8, x: u8, y: u8)
    requires
        desk.wf(),
        flags % 2 == 1,
        desk.buttons % 2 == 1,
        desk.drag matches Some((index, _, _)) && desk.open[index as int],
    ensures
        ({
            let (index, dx, dy) = desk.drag->0;
            let after = desk.packet(flags, x, y).0;
            let width: int = if desk.open[1 - index] {
                38
            } else {
                74
            };
            let left = after.pointer_x - dx;
            let top = after.pointer_y - dy;
            &&& 0 <= left && left + width <= 80 ==> after.windows[index as int].x == left
            &&& left < 0 ==> after.windows[index as int].x == 0
            &&& left + width > 80 ==> after.windows[index as int].x + width == 80
            &&& 1 <= top && top + 20 <= 24 ==> after.windows[index as int].y == top
            &&& top < 1 ==> after.windows[index as int].y == 1
            &&& top + 20 > 24 ==> after.windows[index as int].y + 20 == 24
            &&& after.windows[1 - index] == desk.windows[1 - index]
        }),
{
    lemma_flags(flags, desk.buttons);
}

/// Three bytes make a packet, if the first has its fourth bit set; one that has
/// not is passed over.
pub proof fn lemma_three_bytes_make_a_packet(desk: Desk, flags: u8, x: u8, y: u8)
    requires
        desk.wf(),
        desk.packet.len() == 0,
    ensures
        flags / 8 % 2 == 0 ==> desk.byte(flags) == (desk, None::<InputEvent>),
        flags / 8 % 2 == 1 ==> {
            let first = desk.byte(flags);
            let second = first.0.byte(x);
            let third = second.0.byte(y);
            &&& first.1 is None && second.1 is None
            &&& !desk.ends_packet() && !first.0.ends_packet() && second.0.ends_packet()
            &&& third.0 == desk.packet(flags, x, y).0
            &&& third.1 == desk.packet(flags, x, y).1
        },
{
    lemma_flags(flags, desk.buttons);
    if flags / 8 % 2 == 1 {
        let first = desk.byte(flags).0;
        let second = first.byte(x).0;
        assert(second.packet =~= seq![flags, x]);
        assert(second.byte(y).0 =~= desk.packet(flags, x, y).0);
    }
}

/// At the start nothing is open, gripped or pressed, and the pointer is on the
/// screen.
pub proof fn lemma_desktop_starts_empty()
    ensures
        Desk::start().wf(),
        !Desk::start().open[0] && !Desk::start().open[1],
        Desk::start().drag is None && Desk::start().packet.len() == 0,
        Desk::start().buttons == 0 && Desk::start().active == 0,
        Desk::start().pointer_x == 72 && Desk::start().pointer_y == 22,
{
}

/// Closing a window closes that one only and leaves both where they are. The
/// focus goes to the other window if that is open.
pub proof fn lemma_closing(desk: Desk, index: int)
    requires
        desk.wf(),
        0 <= index < 2,
    ensures
        ({
            let after = desk.closed(index);
            &&& !after.open[index] && after.open[1 - index] == desk.open[1 - index]
            &&& after.windows == desk.windows
            &&& after.drag is None
            &&& desk.open[1 - index] ==> after.active == 1 - index && after.open[after.active]
            &&& !desk.open[1 - index] ==> after.active == index
            &&& after.pointer_x == desk.pointer_x && after.pointer_y == desk.pointer_y
        }),
{
}

/// Opening a window leaves the other open as it was and focuses the new one. Two
/// windows stand side by side without sharing a cell, the first on the left, and
/// leave two columns free between them; one alone is centered.
pub proof fn lemma_opening(desk: Desk, index: int)
    requires
        desk.wf(),
        0 <= index < 2,
        !desk.open[index],
    ensures
        ({
            let after = desk.opened(index);
            &&& after.open[index] && after.open[1 - index] == desk.open[1 - index]
            &&& after.active == index
            &&& after.drag is None
            &&& after.pointer_x == desk.pointer_x && after.pointer_y == desk.pointer_y
            &&& after.rect(index) matches Some((_, top, _)) && top == 4
            &&& desk.open[1 - index] ==> {
                let (left, top, width) = after.rect(0)->0;
                let (other_left, other_top, other_width) = after.rect(1)->0;
                &&& after.rect(0) is Some && after.rect(1) is Some
                &&& top == 4 && other_top == 4 && width == 38 && other_width == 38
                &&& left == 1 && other_left == left + width + 2
                &&& other_left + other_width == 80 - 1
            }
            &&& !desk.open[1 - index] ==> {
                let (left, top, width) = after.rect(index)->0;
                &&& after.rect(index) is Some && after.rect(1 - index) is None
                &&& left == 80 - (left + width) && width == 74
                &&& after.windows[1 - index] == desk.windows[1 - index]
            }
        }),
{
}

/// The window that opens next is the first one that is closed, and there is none
/// exactly if both are open.
pub proof fn lemma_first_closed(desk: Desk)
    requires
        desk.wf(),
    ensures
        (desk.first_closed() is None) == (desk.open[0] && desk.open[1]),
        desk.first_closed() matches Some(index) ==> 0 <= index < 2 && !desk.open[index] && (
        index == 1 ==> desk.open[0]),
{
}

/// A terminal has the columns inside its frame; a window is 38 cells wide beside
/// another and 74 alone.
pub proof fn lemma_widths(desk: Desk, index: int)
    requires
        desk.wf(),
        0 <= index < 2,
    ensures
        desk.open[index] && desk.open[1 - index] ==> desk.columns(index) == 36,
        desk.open[index] && !desk.open[1 - index] ==> desk.columns(index) == 72,
        !desk.open[index] ==> desk.columns(index) == 76,
        desk.rect(index) is Some == desk.open[index],
        desk.rect(index) matches Some((left, top, width)) ==> {
            &&& width == desk.columns(index) + 2
            &&& 0 <= left && left + width <= 80 && 1 <= top && top + 20 <= 24
            &&& top == desk.windows[index].y
            &&& desk.windows[index].x + width <= 80 ==> left == desk.windows[index].x
        },
{
}

} // verus!
