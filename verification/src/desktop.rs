//! Desktop layout and PS/2 mouse window dragging.
//!
//! Windows are panels of character cells.
use vstd::prelude::*;

use crate::console::{set_active_terminal, set_terminal_columns, terminal_index, Console};
use crate::vga_buffer::Screen;

verus! {

/// Cells across the screen, and down.
pub const SCREEN_W: i16 = 80;
pub const SCREEN_H: i16 = 25;
/// Cells across the only window, and down any window.
pub const WINDOW_W: i16 = 74;
pub const WINDOW_H: i16 = 20;
/// Cells across each of two windows.
pub const HALF_W: i16 = 38;
/// Counts of the mouse that move the pointer by one cell.
pub const MOUSE_COUNTS_X: i16 = 8;
pub const MOUSE_COUNTS_Y: i16 = 16;

#[derive(Clone, Copy, Debug, PartialEq, Eq, Structural)]
pub struct Window {
    pub x: i16,
    pub y: i16,
}

/// What the mouse asks for beside moving things.
#[derive(Clone, Copy, Debug, PartialEq, Eq, Structural)]
pub enum InputEvent {
    CloseTerminal(usize),
    OpenTerminal,
}

/// Where a window is: its left and top cell, and its width.
pub type Rect = (i16, i16, i16);

pub struct Desktop {
    pub windows: [Window; 2],
    pub open: [bool; 2],
    /// The window that is dragged, and where in it the pointer holds it.
    pub drag: Option<(usize, i16, i16)>,
    pub packet: [u8; 3],
    pub packet_len: usize,
    pub pointer_x: i16,
    pub pointer_y: i16,
    /// Counts of the mouse that have not moved the pointer yet.
    pub motion_x: i16,
    pub motion_y: i16,
    pub buttons: u8,
    pub active: usize,
}

/// What a desktop holds; of the packet only the bytes that have come.
#[verifier::ext_equal]
pub struct Desk {
    pub windows: Seq<Window>,
    pub open: Seq<bool>,
    pub drag: Option<(usize, i16, i16)>,
    pub packet: Seq<u8>,
    pub pointer_x: int,
    pub pointer_y: int,
    pub motion_x: int,
    pub motion_y: int,
    pub buttons: u8,
    pub active: int,
}

impl View for Desktop {
    type V = Desk;

    open spec fn view(&self) -> Desk {
        Desk {
            windows: self.windows@,
            open: self.open@,
            drag: self.drag,
            packet: self.packet@.subrange(0, self.packet_len as int),
            pointer_x: self.pointer_x as int,
            pointer_y: self.pointer_y as int,
            motion_x: self.motion_x as int,
            motion_y: self.motion_y as int,
            buttons: self.buttons,
            active: self.active as int,
        }
    }
}

pub open spec fn clamped(value: int, low: int, high: int) -> int {
    if value < low {
        low
    } else if value > high {
        high
    } else {
        value
    }
}

/// Quotient rounded toward zero.
pub open spec fn quotient(a: int, b: int) -> int {
    if a >= 0 {
        a / b
    } else {
        -((-a) / b)
    }
}

/// A motion count of the mouse: nine bits, the sign apart from the rest.
pub open spec fn motion(byte: u8, negative: bool) -> int {
    byte as int - if negative {
        256int
    } else {
        0
    }
}

/// Whether a window covers a cell.
pub open spec fn covers(rect: Option<Rect>, x: int, y: int) -> bool {
    match rect {
        Some((left, top, width)) => left <= x < left + width && top <= y < top + 20,
        None => false,
    }
}

impl Desk {
    pub open spec fn wf(self) -> bool {
        &&& self.windows.len() == 2
        &&& self.open.len() == 2
        &&& 0 <= self.windows[0].x <= 42 && 1 <= self.windows[0].y <= 4
        &&& 0 <= self.windows[1].x <= 42 && 1 <= self.windows[1].y <= 4
        &&& self.drag matches Some((index, dx, dy)) ==> index < 2 && 0 <= dx < 80 && 0 <= dy < 25
        &&& self.packet.len() < 3
        &&& 0 <= self.pointer_x < 80
        &&& 0 <= self.pointer_y < 25
        &&& -8 < self.motion_x < 8
        &&& -16 < self.motion_y < 16
        &&& 0 <= self.active < 2
    }

    pub open spec fn start() -> Desk {
        Desk {
            windows: seq![Window { x: 3, y: 4 }, Window { x: 41, y: 4 }],
            open: seq![false, false],
            drag: None,
            packet: Seq::empty(),
            pointer_x: 72,
            pointer_y: 22,
            motion_x: 0,
            motion_y: 0,
            buttons: 0,
            active: 0,
        }
    }

    /// Where a window is shown, if it is open. The only window is kept on the
    /// screen with its greater width.
    pub open spec fn rect(self, index: int) -> Option<Rect> {
        let window = self.windows[index];
        if !self.open[index] {
            None
        } else if self.open[1 - index] {
            Some((window.x, window.y, 38))
        } else {
            Some((clamped(window.x as int, 0, 6) as i16, window.y, 74))
        }
    }

    /// The topmost window at a cell; the focused one is above the other.
    pub open spec fn hit(self, x: int, y: int) -> Option<int> {
        if covers(self.rect(self.active), x, y) {
            Some(self.active)
        } else if covers(self.rect(1 - self.active), x, y) {
            Some(1 - self.active)
        } else {
            None
        }
    }

    /// With the pointer moved by the counts of a packet.
    pub open spec fn moved(self, dx: int, dy: int) -> Desk {
        let mx = self.motion_x + dx;
        let my = self.motion_y + dy;
        Desk {
            pointer_x: clamped(self.pointer_x + quotient(mx, 8), 0, 79),
            pointer_y: clamped(self.pointer_y - quotient(my, 16), 0, 24),
            motion_x: mx - 8 * quotient(mx, 8),
            motion_y: my - 16 * quotient(my, 16),
            ..self
        }
    }

    /// After the button went down where the pointer is: the desktop, and what
    /// is asked for.
    pub open spec fn pressed(self) -> (Desk, Option<InputEvent>) {
        let x = self.pointer_x;
        let y = self.pointer_y;
        let free = Desk { drag: None, ..self };
        match self.hit(x, y) {
            Some(index) => {
                let (left, top, width) = self.rect(index)->0;
                let focused = Desk { active: index, ..free };
                if y == top && left + width - 4 <= x < left + width - 1 {
                    (focused, Some(InputEvent::CloseTerminal(index as usize)))
                } else if y == top {
                    let held = Some((index as usize, (x - left) as i16, (y - top) as i16));
                    (Desk { drag: held, ..focused }, None)
                } else {
                    (focused, None)
                }
            },
            None => if 3 <= x <= 12 && 1 <= y <= 3 {
                (free, Some(InputEvent::OpenTerminal))
            } else {
                (free, None)
            },
        }
    }

    /// With the window that is held brought to the pointer, as far as it stays
    /// on the screen.
    pub open spec fn dragged(self) -> Desk {
        match self.drag {
            Some((index, dx, dy)) => {
                let width = match self.rect(index as int) {
                    Some((_, _, width)) => width,
                    None => 38,
                };
                let window = Window {
                    x: clamped(self.pointer_x - dx, 0, 80 - width) as i16,
                    y: clamped(self.pointer_y - dy, 1, 4) as i16,
                };
                Desk { windows: self.windows.update(index as int, window), ..self }
            },
            None => self,
        }
    }

    /// After a whole packet.
    pub open spec fn packet(self, flags: u8, x: u8, y: u8) -> (Desk, Option<InputEvent>) {
        let moved = self.moved(motion(x, flags & 0x10 != 0), motion(y, flags & 0x20 != 0));
        let (touched, event) = if flags & 1 != 0 && self.buttons & 1 == 0 {
            moved.pressed()
        } else {
            (moved, None)
        };
        let held = if flags & 1 == 0 {
            Desk { drag: None, ..touched }
        } else {
            touched
        };
        (Desk { buttons: flags & 7, packet: Seq::empty(), ..held.dragged() }, event)
    }

    /// Whether a byte ends a packet.
    pub open spec fn ends_packet(self) -> bool {
        self.packet.len() == 2
    }

    /// After one byte from the mouse. A packet cannot start with a byte whose
    /// bit 3 is clear.
    pub open spec fn byte(self, byte: u8) -> (Desk, Option<InputEvent>) {
        if self.packet.len() == 0 && byte & 8 == 0 {
            (self, None)
        } else if self.ends_packet() {
            self.packet(self.packet[0], self.packet[1], byte)
        } else {
            (Desk { packet: self.packet.push(byte), ..self }, None)
        }
    }

    /// With a window closed, and the other one focused if it is open.
    pub open spec fn closed(self, index: int) -> Desk {
        Desk {
            drag: None,
            open: self.open.update(index, false),
            active: if self.open[1 - index] {
                1 - index
            } else {
                index
            },
            ..self
        }
    }

    /// The window that opens next.
    pub open spec fn first_closed(self) -> Option<int> {
        if !self.open[0] {
            Some(0)
        } else if !self.open[1] {
            Some(1)
        } else {
            None
        }
    }

    /// With a window opened and focused; two windows go side by side.
    pub open spec fn opened(self, index: int) -> Desk {
        Desk {
            windows: if self.open[1 - index] {
                seq![Window { x: 1, y: 4 }, Window { x: 41, y: 4 }]
            } else {
                self.windows.update(index, Window { x: 3, y: 4 })
            },
            drag: None,
            open: self.open.update(index, true),
            active: index,
            ..self
        }
    }

    /// The columns that a terminal writes in: what its window has inside.
    pub open spec fn columns(self, index: int) -> int {
        match self.rect(index) {
            Some((_, _, width)) => width - 2,
            None => 76,
        }
    }
}

fn clamp(value: i16, low: i16, high: i16) -> (result: i16)
    requires
        low <= high,
    ensures
        result == clamped(value as int, low as int, high as int),
{
    if value < low {
        low
    } else if value > high {
        high
    } else {
        value
    }
}

fn divide(a: i16, b: i16) -> (result: i16)
    requires
        -1000 < a < 1000,
        0 < b < 100,
    ensures
        result == quotient(a as int, b as int),
        -1000 < result < 1000,
{
    proof {
        let m = if a >= 0 {
            a as int
        } else {
            -a
        };
        assert(0 <= m / b as int <= m) by (nonlinear_arith)
            requires
                m >= 0,
                b > 0,
        ;
    }
    if a >= 0 {
        (a as u16 / b as u16) as i16
    } else {
        -(((-a) as u16 / b as u16) as i16)
    }
}

fn is_covered(rect: Option<Rect>, x: i16, y: i16) -> (covered: bool)
    requires
        rect matches Some((left, top, width)) ==> 0 <= left < 100 && 0 <= top < 100 && 0 <= width
            < 100,
    ensures
        covered == covers(rect, x as int, y as int),
{
    match rect {
        Some((left, top, width)) => x >= left && x < left + width && y >= top && y < top + WINDOW_H,
        None => false,
    }
}

impl Desktop {
    pub open spec fn wf(&self) -> bool {
        self.packet_len < 3 && self@.wf()
    }

    pub fn new() -> (desktop: Desktop)
        ensures
            desktop@ == Desk::start(),
            desktop.wf(),
    {
        let desktop = Desktop {
            windows: [Window { x: 3, y: 4 }, Window { x: 41, y: 4 }],
            open: [false, false],
            drag: None,
            packet: [0; 3],
            packet_len: 0,
            pointer_x: 72,
            pointer_y: 22,
            motion_x: 0,
            motion_y: 0,
            buttons: 0,
            active: 0,
        };
        assert(desktop@ =~= Desk::start());
        desktop
    }

    fn find_hit(&self) -> (index: Option<usize>)
        requires
            self.wf(),
        ensures
            match self@.hit(self@.pointer_x, self@.pointer_y) {
                Some(i) => index == Some(i as usize) && 0 <= i < 2 && self@.rect(i) is Some,
                None => index is None,
            },
    {
        let rects = layout(self);
        let other: usize = 1 - self.active;
        if is_covered(rects[self.active], self.pointer_x, self.pointer_y) {
            Some(self.active)
        } else if is_covered(rects[other], self.pointer_x, self.pointer_y) {
            Some(other)
        } else {
            None
        }
    }

    fn move_pointer(&mut self, dx: i16, dy: i16)
        requires
            old(self).wf(),
            -256 <= dx < 256,
            -256 <= dy < 256,
        ensures
            final(self)@ == old(self)@.moved(dx as int, dy as int),
            final(self).wf(),
            final(self).packet == old(self).packet,
            final(self).packet_len == old(self).packet_len,
    {
        let mx: i16 = self.motion_x + dx;
        let my: i16 = self.motion_y + dy;
        let move_x: i16 = divide(mx, MOUSE_COUNTS_X);
        let move_y: i16 = divide(my, MOUSE_COUNTS_Y);
        self.motion_x = mx - MOUSE_COUNTS_X * move_x;
        self.motion_y = my - MOUSE_COUNTS_Y * move_y;
        self.pointer_x = clamp(self.pointer_x + move_x, 0, SCREEN_W - 1);
        self.pointer_y = clamp(self.pointer_y - move_y, 0, SCREEN_H - 1);
    }

    fn press(&mut self) -> (event: Option<InputEvent>)
        requires
            old(self).wf(),
        ensures
            (final(self)@, event) == old(self)@.pressed(),
            final(self).wf(),
            final(self).packet == old(self).packet,
            final(self).packet_len == old(self).packet_len,
    {
        let x: i16 = self.pointer_x;
        let y: i16 = self.pointer_y;
        let rects = layout(self);
        let hit: Option<usize> = self.find_hit();
        self.drag = None;
        match hit {
            Some(index) => {
                self.active = index;
                if let Some((left, top, width)) = rects[index] {
                    if y == top && x >= left + width - 4 && x < left + width - 1 {
                        return Some(InputEvent::CloseTerminal(index));
                    }
                    if y == top {
                        self.drag = Some((index, x - left, y - top));
                    }
                }
                None
            },
            None => if x >= 3 && x <= 12 && y >= 1 && y <= 3 {
                Some(InputEvent::OpenTerminal)
            } else {
                None
            },
        }
    }

    fn drag_window(&mut self)
        requires
            old(self).wf(),
        ensures
            final(self)@ == old(self)@.dragged(),
            final(self).wf(),
            final(self).packet == old(self).packet,
            final(self).packet_len == old(self).packet_len,
    {
        if let Some((index, dx, dy)) = self.drag {
            let rects = layout(self);
            let width: i16 = match rects[index] {
                Some((_, _, width)) => width,
                None => HALF_W,
            };
            self.windows[index] = Window {
                x: clamp(self.pointer_x - dx, 0, SCREEN_W - width),
                y: clamp(self.pointer_y - dy, 1, SCREEN_H - WINDOW_H - 1),
            };
        }
    }
}

/// Where the windows are.
pub fn layout(desktop: &Desktop) -> (rects: [Option<Rect>; 2])
    requires
        desktop.wf(),
    ensures
        rects@[0] == desktop@.rect(0),
        rects@[1] == desktop@.rect(1),
        forall|i: int|
            0 <= i < 2 ==> (#[trigger] rects@[i] matches Some((x, y, width)) ==> {
                &&& 0 <= x
                &&& x + width <= 80
                &&& 1 <= y
                &&& y + 20 <= 25
                &&& (width == 38 || width == 74)
            }),
{
    let first: Window = desktop.windows[0];
    let second: Window = desktop.windows[1];
    if desktop.open[0] && desktop.open[1] {
        [Some((first.x, first.y, HALF_W)), Some((second.x, second.y, HALF_W))]
    } else if desktop.open[0] {
        [Some((clamp(first.x, 0, SCREEN_W - WINDOW_W), first.y, WINDOW_W)), None]
    } else if desktop.open[1] {
        [None, Some((clamp(second.x, 0, SCREEN_W - WINDOW_W), second.y, WINDOW_W))]
    } else {
        [None, None]
    }
}

/// Accept one byte from the PS/2 mouse packet stream. Returns whether the
/// desktop has to be drawn again, and what the mouse asks for.
pub fn mouse_byte(desktop: &mut Desktop, console: &mut Console, byte: u8) -> (result: (
    bool,
    Option<InputEvent>,
))
    requires
        old(desktop).wf(),
    ensures
        (final(desktop)@, result.1) == old(desktop)@.byte(byte),
        result.0 == old(desktop)@.ends_packet(),
        *final(console) == (if result.0 {
            Console { active: final(desktop).active, ..*old(console) }
        } else {
            *old(console)
        }),
        final(desktop).wf(),
{
    if desktop.packet_len == 0 && byte & 8 == 0 {
        return (false, None);
    }
    if desktop.packet_len < 2 {
        let len: usize = desktop.packet_len;
        desktop.packet[len] = byte;
        desktop.packet_len = len + 1;
        assert(desktop@.packet =~= old(desktop)@.packet.push(byte));
        return (false, None);
    }
    let flags: u8 = desktop.packet[0];
    assert(flags == desktop@.packet[0]);
    assert(desktop.packet@[1] == desktop@.packet[1]);
    let dx: i16 = desktop.packet[1] as i16 - if flags & 0x10 != 0 {
        256
    } else {
        0
    };
    let dy: i16 = byte as i16 - if flags & 0x20 != 0 {
        256
    } else {
        0
    };
    let was_down: bool = desktop.buttons & 1 != 0;
    desktop.move_pointer(dx, dy);
    let mut event: Option<InputEvent> = None;
    if flags & 1 != 0 && !was_down {
        event = desktop.press();
    }
    if flags & 1 == 0 {
        desktop.drag = None;
    }
    desktop.drag_window();
    desktop.buttons = flags & 7;
    desktop.packet_len = 0;
    assert(desktop@.packet =~= Seq::<u8>::empty());
    set_active_terminal(console, desktop.active);
    (true, event)
}

pub fn active_terminal(desktop: &Desktop) -> (index: usize)
    ensures
        index == desktop@.active,
{
    desktop.active
}

pub fn is_open(desktop: &Desktop, index: usize) -> (open: bool)
    ensures
        open == desktop@.open[if index > 1 {
            1int
        } else {
            index as int
        }],
{
    desktop.open[if index > 1 {
        1
    } else {
        index
    }]
}

/// Current text-cell position of the mouse cursor.
pub fn pointer(desktop: &Desktop) -> (cell: (i16, i16))
    ensures
        cell.0 == desktop@.pointer_x,
        cell.1 == desktop@.pointer_y,
{
    (desktop.pointer_x, desktop.pointer_y)
}

/// Snapshot of the window locations.
pub fn windows(desktop: &Desktop) -> (rects: [Option<Rect>; 2])
    requires
        desktop.wf(),
    ensures
        rects@[0] == desktop@.rect(0),
        rects@[1] == desktop@.rect(1),
{
    layout(desktop)
}

/// Give each terminal the columns that its window has inside.
fn sync_terminal_widths(desktop: &Desktop, console: &mut Console)
    requires
        desktop.wf(),
    ensures
        synced(*old(console), *final(console), desktop@),
        final(console).active == old(console).active,
{
    let rects = windows(desktop);
    let first: usize = match rects[0] {
        Some((_, _, width)) => (width - 2) as usize,
        None => 76,
    };
    let second: usize = match rects[1] {
        Some((_, _, width)) => (width - 2) as usize,
        None => 76,
    };
    set_terminal_columns(console, 0, first);
    set_terminal_columns(console, 1, second);
}

/// Whether a console differs from another only in the columns of its
/// terminals, which are those of a desktop, and in which terminal is active.
pub open spec fn synced(before: Console, after: Console, desk: Desk) -> bool {
    &&& after.terminals@[0]@ == (Screen { columns: desk.columns(0), ..before.terminals@[0]@ })
    &&& after.terminals@[1]@ == (Screen { columns: desk.columns(1), ..before.terminals@[1]@ })
    &&& after.previous == before.previous
    &&& after.valid == before.valid
    &&& before.wf() && after.active < 2 ==> after.wf()
}

pub fn close_terminal(desktop: &mut Desktop, console: &mut Console, index: usize)
    requires
        old(desktop).wf(),
    ensures
        final(desktop)@ == old(desktop)@.closed(terminal_index(index)),
        final(desktop).wf(),
        synced(*old(console), *final(console), final(desktop)@),
        final(console).active == final(desktop)@.active,
{
    let closed: usize = if index > 1 {
        1
    } else {
        index
    };
    let other: usize = 1 - closed;
    desktop.drag = None;
    desktop.open[closed] = false;
    desktop.active = if desktop.open[other] {
        other
    } else {
        closed
    };
    sync_terminal_widths(desktop, console);
    set_active_terminal(console, desktop.active);
}

pub fn close_active(desktop: &mut Desktop, console: &mut Console)
    requires
        old(desktop).wf(),
    ensures
        final(desktop)@ == old(desktop)@.closed(old(desktop)@.active),
        final(desktop).wf(),
        synced(*old(console), *final(console), final(desktop)@),
        final(console).active == final(desktop)@.active,
{
    let index: usize = active_terminal(desktop);
    close_terminal(desktop, console, index);
}

/// Open the first window that is closed, if any is.
pub fn open_terminal(desktop: &mut Desktop, console: &mut Console) -> (opened: Option<usize>)
    requires
        old(desktop).wf(),
    ensures
        final(desktop).wf(),
        match old(desktop)@.first_closed() {
            Some(index) => {
                &&& opened == Some(index as usize)
                &&& final(desktop)@ == old(desktop)@.opened(index)
                &&& synced(*old(console), *final(console), final(desktop)@)
                &&& final(console).active == index
            },
            None => {
                &&& opened is None
                &&& *final(desktop) == *old(desktop)
                &&& *final(console) == *old(console)
            },
        },
{
    let index: usize = if !desktop.open[0] {
        0
    } else if !desktop.open[1] {
        1
    } else {
        return None;
    };
    if desktop.open[1 - index] {
        desktop.windows = [Window { x: 1, y: 4 }, Window { x: 41, y: 4 }];
    } else {
        desktop.windows[index] = Window { x: 3, y: 4 };
    }
    desktop.drag = None;
    desktop.open[index] = true;
    desktop.active = index;
    assert(desktop@.windows =~= old(desktop)@.opened(index as int).windows);
    sync_terminal_widths(desktop, console);
    set_active_terminal(console, index);
    Some(index)
}

/// Every open window is on the screen as a whole, below the top line.
pub proof fn lemma_windows_on_screen(desk: Desk, index: int)
    requires
        desk.wf(),
        0 <= index < 2,
    ensures
        desk.rect(index) matches Some((x, y, width)) ==> {
            &&& 0 <= x
            &&& x + width <= 80
            &&& 1 <= y
            &&& y + 20 <= 25
        },
{
}

/// Whatever the mouse sends, the windows and the pointer stay on the screen,
/// and no window opens or closes.
pub proof fn lemma_mouse_keeps_desktop(desk: Desk, byte: u8)
    requires
        desk.wf(),
    ensures
        desk.byte(byte).0.wf(),
        desk.byte(byte).0.open == desk.open,
{
}

/// One window takes most of the width; a second one halves it, and the two do
/// not overlap.
pub proof fn lemma_windows_share_screen(desk: Desk, index: int)
    requires
        desk.wf(),
        0 <= index < 2,
        !desk.open[index],
    ensures
        !desk.open[1 - index] ==> {
            &&& desk.opened(index).rect(index) == Some((3i16, 4i16, 74i16))
            &&& desk.opened(index).rect(1 - index) is None
        },
        desk.open[1 - index] ==> {
            &&& desk.opened(index).rect(0) == Some((1i16, 4i16, 38i16))
            &&& desk.opened(index).rect(1) == Some((41i16, 4i16, 38i16))
            &&& forall|x: int, y: int|
                !(covers(desk.opened(index).rect(0), x, y) && covers(
                    desk.opened(index).rect(1),
                    x,
                    y,
                ))
        },
{
}

/// Closing a window focuses the other one if it is open, and opening always
/// focuses the window opened: the focus is on a closed window only if both are.
pub proof fn lemma_focus_is_open(desk: Desk, index: int)
    requires
        desk.wf(),
        0 <= index < 2,
    ensures
        desk.opened(index).open[desk.opened(index).active],
        desk.closed(index).open[desk.closed(index).active] || (!desk.closed(index).open[0]
            && !desk.closed(index).open[1]),
{
}

/// A press anywhere focuses the topmost window there.
pub proof fn lemma_press_focuses(desk: Desk)
    requires
        desk.wf(),
    ensures
        desk.hit(desk.pointer_x, desk.pointer_y) matches Some(index) ==> desk.pressed().0.active
            == index,
        desk.hit(desk.pointer_x, desk.pointer_y) is None ==> desk.pressed().0.active
            == desk.active,
{
}

} // verus!
