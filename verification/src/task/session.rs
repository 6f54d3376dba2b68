//! Routing of the keyboard and of the mouse's requests to two shells.
use pc_keyboard::DecodedKey;
use vstd::prelude::*;

use crate::console::{
    background, cursor_place, drawn_lines, drawn_terminal, drawn_window, inverted,
    lemma_live_cursor_drawn, picture, set_active_terminal, set_terminal_columns,
    terminal_index, Console,
};
use crate::desktop::{
    close_terminal, is_open, lemma_mouse_keeps_desktop, lemma_windows_on_screen, open_terminal,
    Desk, Desktop, InputEvent,
};
use crate::shell::answers::{answer_lines, Answer};
use crate::shell::commands::{asked, Asked, Request};
use crate::shell::keys::{action_of_key, Action};
use crate::shell::{Shell, Terminal};
use crate::system::{Facts, SystemInfo};
use crate::task::keyboard::{decoder, dropped_scancodes, Decoder, Keys, ScancodeStream};
use crate::vga_buffer::{live_top_of, Screen, ScreenChar};

verus! {

/// Both shells on their screens, the desktop, and where decoding stands.
#[verifier::ext_equal]
pub struct Station {
    pub terminals: Seq<Terminal>,
    pub desk: Desk,
    pub keys: Keys,
}

/// What a key means before any shell sees it.
pub enum Route {
    Open,
    Close,
    Shell,
}

/// Control with Q opens a terminal and control with C closes one.
pub open spec fn route_of(key: DecodedKey) -> Route {
    match key {
        DecodedKey::Unicode(c) => if c as int == 0x11 {
            Route::Open
        } else if c as int == 0x03 {
            Route::Close
        } else {
            Route::Shell
        },
        DecodedKey::RawKey(_) => Route::Shell,
    }
}

fn route(key: DecodedKey) -> (route: Route)
    ensures
        route == route_of(key),
{
    match key {
        DecodedKey::Unicode(c) => {
            let n: u32 = c as u32;
            if n == 0x11 {
                Route::Open
            } else if n == 0x03 {
                Route::Close
            } else {
                Route::Shell
            }
        },
        DecodedKey::RawKey(_) => Route::Shell,
    }
}

impl Terminal {
    pub open spec fn widened(self, columns: int) -> Terminal {
        self.on(Screen { columns, ..self.screen })
    }
}

impl Station {
    /// Whether each shell can go on for `lines` lines, in the columns that its
    /// window has. Before the first window opens, both have 36.
    pub open spec fn ready(self, lines: int) -> bool {
        &&& self.terminals.len() == 2
        &&& self.desk.wf()
        &&& self.terminals[0].ready(lines)
        &&& self.terminals[1].ready(lines)
        &&& self.in_columns(0)
        &&& self.in_columns(1)
    }

    pub open spec fn in_columns(self, index: int) -> bool {
        let columns = self.terminals[index].screen.columns;
        ||| columns == self.desk.columns(index)
        ||| columns == 36 && !self.desk.open[0] && !self.desk.open[1]
    }

    /// Whether the output of both terminals ends at their input.
    pub open spec fn near_end(self) -> bool {
        self.terminals[0].near_end() && self.terminals[1].near_end()
    }

    /// The lower one of the two terminals' last lines.
    pub open spec fn lowest(self) -> int {
        if self.terminals[0].lowest() > self.terminals[1].lowest() {
            self.terminals[0].lowest()
        } else {
            self.terminals[1].lowest()
        }
    }

    /// With another desktop. Where the number of windows has changed, both
    /// terminals start afresh in their new widths.
    pub open spec fn arranged(self, desk: Desk) -> Station {
        let first = self.terminals[0].widened(desk.columns(0));
        let second = self.terminals[1].widened(desk.columns(1));
        Station {
            terminals: if desk.open == self.desk.open {
                seq![first, second]
            } else {
                seq![first.reset(), second.reset()]
            },
            desk,
            ..self
        }
    }

    pub open spec fn closed(self, index: int) -> Station {
        self.arranged(self.desk.closed(index))
    }

    pub open spec fn opened(self) -> Station {
        match self.desk.first_closed() {
            Some(index) => self.arranged(self.desk.opened(index)),
            None => self,
        }
    }

    pub open spec fn event(self, event: InputEvent) -> Station {
        match event {
            InputEvent::CloseTerminal(index) => self.closed(terminal_index(index)),
            InputEvent::OpenTerminal => self.opened(),
        }
    }

    /// With the focused terminal replaced.
    pub open spec fn focused(self, terminal: Terminal) -> Station {
        Station { terminals: self.terminals.update(self.desk.active, terminal), ..self }
    }

    /// After a key was pressed.
    pub open spec fn key(self, key: DecodedKey, info: SystemInfo, facts: Facts) -> Station {
        match route_of(key) {
            Route::Open => self.opened(),
            Route::Close => self.closed(self.desk.active),
            Route::Shell => self.focused(
                self.terminals[self.desk.active].acted(action_of_key(key), info, facts),
            ),
        }
    }

    /// What a key asks of the surroundings.
    pub open spec fn key_asks(self, key: DecodedKey) -> Option<Asked> {
        if route_of(key) is Shell && action_of_key(key) == Action::Enter {
            self.terminals[self.desk.active].request()
        } else {
            None
        }
    }

    /// What a byte of the keyboard asks of the surroundings.
    pub open spec fn byte_asks(self, byte: u8) -> Option<Asked> {
        match self.keys.byte(byte).1 {
            Some(key) => self.key_asks(key),
            None => None,
        }
    }

    /// After the request of a terminal was answered.
    pub open spec fn answered(self, index: int, answer: Answer) -> Station {
        Station {
            terminals: self.terminals.update(index, self.terminals[index].answered(answer)),
            ..self
        }
    }

    /// After bytes of the keyboard were lost.
    pub open spec fn lost(self) -> Station {
        Station {
            keys: Keys::start(),
            ..self.focused(self.terminals[self.desk.active].lost())
        }
    }

    /// After a byte of the keyboard, which gave a key or none.
    pub open spec fn byte(self, byte: u8, info: SystemInfo, facts: Facts) -> Station {
        let (keys, key) = self.keys.byte(byte);
        let decoded = Station { keys, ..self };
        match key {
            Some(key) => decoded.key(key, info, facts),
            None => decoded,
        }
    }
}

/// Whether a request is what the terminal of an index asks for.
pub open spec fn is_asked(
    request: Option<(usize, Request)>,
    index: int,
    expected: Option<Asked>,
) -> bool {
    match request {
        Some((terminal, request)) => terminal == index && asked(Some(request)) == expected,
        None => expected is None,
    }
}

/// Two shells and the keyboard that they share.
pub struct Session {
    pub keyboard: Decoder,
    pub shells: [Shell; 2],
    /// The count of dropped bytes at the last look.
    pub dropped: usize,
}

impl Session {
    pub open spec fn wf(&self) -> bool {
        &&& self.shells@[0].wf()
        &&& self.shells@[1].wf()
        &&& self.shells@[0].info == self.shells@[1].info
    }

    pub open spec fn info(&self) -> SystemInfo {
        self.shells@[0].info
    }

    /// The session with the console that it writes on.
    pub open spec fn on(&self, console: Console, desktop: Desktop) -> Station {
        Station {
            terminals: seq![
                self.shells@[0].on(console.terminals@[0]@),
                self.shells@[1].on(console.terminals@[1]@),
            ],
            desk: desktop@,
            keys: self.keyboard@,
        }
    }

    /// Start both shells, each in half the width of the screen.
    pub fn new(
        info: SystemInfo,
        facts: &Facts,
        stream: &ScancodeStream,
        console: &mut Console,
    ) -> (session: Session)
        requires
            old(console).wf(),
        ensures
            session.wf(),
            session.info() == info,
            session.dropped == stream.dropped,
            session.keyboard@ == Keys::start(),
            final(console).wf(),
            final(console).active == 0,
            final(console).previous == old(console).previous,
            final(console).valid == old(console).valid,
            forall|i: int|
                0 <= i < 2 ==> {
                    let terminal = #[trigger] session.shells@[i].on(final(console).terminals@[i]@);
                    &&& terminal == Terminal::started(
                        Screen { columns: 36, ..old(console).terminals@[i]@ },
                        info,
                        *facts,
                    )
                    &&& terminal.ready(0)
                    &&& terminal.near_end()
                    &&& terminal.lowest() <= 7000
                    &&& terminal.screen.columns == 36
                },
    {
        set_terminal_columns(console, 0, 36);
        let first: Shell = Shell::new(info, facts, &mut console.terminals[0]);
        set_terminal_columns(console, 1, 36);
        let second: Shell = Shell::new(info, facts, &mut console.terminals[1]);
        set_active_terminal(console, 0);
        Session { keyboard: decoder(), shells: [first, second], dropped: dropped_scancodes(stream) }
    }

    /// Start both shells afresh in the columns that they have now.
    fn restart(&mut self, console: &mut Console)
        requires
            old(self).wf(),
            old(console).wf(),
            old(console).terminals@[0]@.columns >= 3,
            old(console).terminals@[1]@.columns >= 3,
        ensures
            final(self).wf(),
            final(self).info() == old(self).info(),
            final(self).keyboard == old(self).keyboard,
            final(self).dropped == old(self).dropped,
            final(console).wf(),
            final(console).active == old(console).active,
            final(console).previous == old(console).previous,
            final(console).valid == old(console).valid,
            forall|i: int|
                0 <= i < 2 ==> {
                    let before = old(self).shells@[i].on(old(console).terminals@[i]@);
                    let after = #[trigger] final(self).shells@[i].on(
                        final(console).terminals@[i]@,
                    );
                    &&& after == before.reset()
                    &&& after.ready(0)
                    &&& after.near_end()
                    &&& after.lowest() <= 72
                    &&& after.screen.columns == before.screen.columns
                },
    {
        self.shells[0].reset_for_resize(&mut console.terminals[0]);
        self.shells[1].reset_for_resize(&mut console.terminals[1]);
    }

    fn close(&mut self, index: usize, desktop: &mut Desktop, console: &mut Console)
        requires
            old(self).wf(),
            old(desktop).wf(),
            old(console).wf(),
            old(self).on(*old(console), *old(desktop)).ready(0),
        ensures
            final(self).on(*final(console), *final(desktop)) == old(self).on(
                *old(console),
                *old(desktop),
            ).closed(terminal_index(index)),
            final(self).kept(*old(self), *final(console), *old(console), *final(desktop)),
            old(self).on(*old(console), *old(desktop)).near_end() ==> final(self).on(
                *final(console),
                *final(desktop),
            ).near_end(),
            final(self).dropped == old(self).dropped,
            final(console).active == final(desktop)@.active,
            final(self).on(*final(console), *final(desktop)).lowest() <= old(self).on(
                *old(console),
                *old(desktop),
            ).lowest() + 72,
    {
        let was_open: bool = is_open(desktop, index);
        close_terminal(desktop, console, index);
        if was_open {
            assert(desktop@.open[terminal_index(index)] != old(desktop)@.open[terminal_index(
                index,
            )]);
            self.restart(console);
        } else {
            assert(desktop@.open =~= old(desktop)@.open);
        }
    }

    fn open(&mut self, desktop: &mut Desktop, console: &mut Console)
        requires
            old(self).wf(),
            old(desktop).wf(),
            old(console).wf(),
            old(self).on(*old(console), *old(desktop)).ready(0),
            old(console).active == old(desktop)@.active,
        ensures
            final(self).on(*final(console), *final(desktop)) == old(self).on(
                *old(console),
                *old(desktop),
            ).opened(),
            final(self).kept(*old(self), *final(console), *old(console), *final(desktop)),
            old(self).on(*old(console), *old(desktop)).near_end() ==> final(self).on(
                *final(console),
                *final(desktop),
            ).near_end(),
            final(self).dropped == old(self).dropped,
            final(console).active == final(desktop)@.active,
            final(self).on(*final(console), *final(desktop)).lowest() <= old(self).on(
                *old(console),
                *old(desktop),
            ).lowest() + 72,
    {
        if let Some(index) = open_terminal(desktop, console) {
            assert(desktop@.open[index as int] != old(desktop)@.open[index as int]);
            self.restart(console);
        }
    }

    /// What every step keeps: the shells stay usable, and nothing is drawn.
    pub open spec fn kept(
        &self,
        before: Session,
        console: Console,
        console_before: Console,
        desktop: Desktop,
    ) -> bool {
        &&& self.wf()
        &&& self.info() == before.info()
        &&& console.wf()
        &&& desktop.wf()
        &&& self.on(console, desktop).ready(0)
        &&& console.previous == console_before.previous
        &&& console.valid == console_before.valid
    }

    /// Do what the mouse asks for.
    pub fn handle_event(&mut self, event: InputEvent, desktop: &mut Desktop, console: &mut Console)
        requires
            old(self).wf(),
            old(desktop).wf(),
            old(console).wf(),
            old(self).on(*old(console), *old(desktop)).ready(0),
            old(console).active == old(desktop)@.active,
        ensures
            final(self).on(*final(console), *final(desktop)) == old(self).on(
                *old(console),
                *old(desktop),
            ).event(event),
            final(self).kept(*old(self), *final(console), *old(console), *final(desktop)),
            old(self).on(*old(console), *old(desktop)).near_end() ==> final(self).on(
                *final(console),
                *final(desktop),
            ).near_end(),
            final(self).dropped == old(self).dropped,
            final(console).active == final(desktop)@.active,
            final(self).on(*final(console), *final(desktop)).lowest() <= old(self).on(
                *old(console),
                *old(desktop),
            ).lowest() + 72,
    {
        match event {
            InputEvent::CloseTerminal(index) => self.close(index, desktop, console),
            InputEvent::OpenTerminal => self.open(desktop, console),
        }
    }

    /// React to a key: it opens or closes a terminal, or goes to the shell in
    /// focus. Returns what a shell asks of its surroundings, and which shell.
    pub fn handle_key(
        &mut self,
        key: DecodedKey,
        facts: &Facts,
        desktop: &mut Desktop,
        console: &mut Console,
    ) -> (request: Option<(usize, Request)>)
        requires
            old(self).wf(),
            old(desktop).wf(),
            old(console).wf(),
            old(self).on(*old(console), *old(desktop)).ready(40000),
            old(console).active == old(desktop)@.active,
        ensures
            final(self).on(*final(console), *final(desktop)) == old(self).on(
                *old(console),
                *old(desktop),
            ).key(key, old(self).info(), *facts),
            is_asked(
                request,
                old(desktop)@.active,
                old(self).on(*old(console), *old(desktop)).key_asks(key),
            ),
            final(self).kept(*old(self), *final(console), *old(console), *final(desktop)),
            old(self).on(*old(console), *old(desktop)).near_end() ==> final(self).on(
                *final(console),
                *final(desktop),
            ).near_end(),
            final(self).dropped == old(self).dropped,
            final(console).active == final(desktop)@.active,
            final(self).on(*final(console), *final(desktop)).lowest() <= old(self).on(
                *old(console),
                *old(desktop),
            ).lowest() + 40000,
    {
        match route(key) {
            Route::Open => {
                self.open(desktop, console);
                None
            },
            Route::Close => {
                let index: usize = desktop.active;
                self.close(index, desktop, console);
                None
            },
            Route::Shell => {
                let index: usize = desktop.active;
                let request: Option<Request> = self.shells[index].handle_key(
                    key,
                    facts,
                    &mut console.terminals[index],
                );
                proof {
                    let before = old(self).on(*old(console), *old(desktop));
                    let after = self.on(*console, *desktop);
                    assert(after.terminals =~= before.key(key, old(self).info(), *facts).terminals);
                }
                match request {
                    Some(request) => Some((index, request)),
                    None => None,
                }
            },
        }
    }

    /// React to a byte of the keyboard. Where bytes were dropped since the last
    /// look, a missing one can leave a modifier or the decoder latched, so what
    /// is queued and the line being typed are discarded as one unit. Returns
    /// what a shell asks of its surroundings, and which shell.
    pub fn scancode(
        &mut self,
        byte: u8,
        facts: &Facts,
        stream: &mut ScancodeStream,
        desktop: &mut Desktop,
        console: &mut Console,
    ) -> (request: Option<(usize, Request)>)
        requires
            old(self).wf(),
            old(stream).wf(),
            old(desktop).wf(),
            old(console).wf(),
            old(self).on(*old(console), *old(desktop)).ready(40000),
            old(console).active == old(desktop)@.active,
        ensures
            old(stream).dropped != old(self).dropped ==> {
                &&& final(self).on(*final(console), *final(desktop)) == old(self).on(
                    *old(console),
                    *old(desktop),
                ).lost()
                &&& final(stream)@ == Seq::<u8>::empty()
                &&& request is None
            },
            old(stream).dropped == old(self).dropped ==> {
                &&& final(self).on(*final(console), *final(desktop)) == old(self).on(
                    *old(console),
                    *old(desktop),
                ).byte(byte, old(self).info(), *facts)
                &&& final(stream)@ == old(stream)@
                &&& is_asked(
                    request,
                    old(desktop)@.active,
                    old(self).on(*old(console), *old(desktop)).byte_asks(byte),
                )
            },
            final(self).dropped == old(stream).dropped,
            final(stream).dropped == old(stream).dropped,
            final(stream).wf(),
            final(self).kept(*old(self), *final(console), *old(console), *final(desktop)),
            old(self).on(*old(console), *old(desktop)).near_end() ==> final(self).on(
                *final(console),
                *final(desktop),
            ).near_end(),
            final(console).active == final(desktop)@.active,
            final(self).on(*final(console), *final(desktop)).lowest() <= old(self).on(
                *old(console),
                *old(desktop),
            ).lowest() + 40000,
    {
        let dropped: usize = dropped_scancodes(stream);
        if dropped != self.dropped {
            stream.drain();
            self.keyboard = decoder();
            self.dropped = dropped;
            let index: usize = desktop.active;
            self.shells[index].input_lost(&mut console.terminals[index]);
            proof {
                let before = old(self).on(*old(console), *old(desktop));
                let after = self.on(*console, *desktop);
                assert(after.terminals =~= before.lost().terminals);
            }
            return None;
        }
        let ghost before = self.on(*console, *desktop);
        match self.keyboard.decode(byte) {
            Some(key) => {
                assert(self.on(*console, *desktop) =~= (Station {
                    keys: before.keys.byte(byte).0,
                    ..before
                }));
                self.handle_key(key, facts, desktop, console)
            },
            None => {
                assert(self.on(*console, *desktop) =~= (Station {
                    keys: before.keys.byte(byte).0,
                    ..before
                }));
                None
            },
        }
    }

    /// Give a shell the answer to its request.
    pub fn answer(
        &mut self,
        index: usize,
        answer: &Answer,
        desktop: &Desktop,
        console: &mut Console,
    )
        requires
            old(self).wf(),
            desktop.wf(),
            old(console).wf(),
            index < 2,
            old(self).on(*old(console), *desktop).ready(answer_lines(*answer) + 72),
        ensures
            final(self).on(*final(console), *desktop) == (Station {
                terminals: old(self).on(*old(console), *desktop).terminals.update(
                    index as int,
                    old(self).on(*old(console), *desktop).terminals[index as int].answered(*answer),
                ),
                ..old(self).on(*old(console), *desktop)
            }),
            final(self).on(*final(console), *desktop) == old(self).on(
                *old(console),
                *desktop,
            ).answered(index as int, *answer),
            final(self).kept(*old(self), *final(console), *old(console), *desktop),
            old(self).on(*old(console), *desktop).near_end() ==> final(self).on(
                *final(console),
                *desktop,
            ).near_end(),
            final(self).dropped == old(self).dropped,
            final(console).active == old(console).active,
            final(self).on(*final(console), *desktop).lowest() <= old(self).on(
                *old(console),
                *desktop,
            ).lowest() + answer_lines(*answer) + 72,
    {
        self.shells[index].answer(answer, &mut console.terminals[index]);
        proof {
            let before = old(self).on(*old(console), *desktop);
            let after = self.on(*console, *desktop);
            assert(after.terminals =~= before.terminals.update(
                index as int,
                before.terminals[index as int].answered(*answer),
            ));
        }
    }
}

/// The mouse alone never disturbs the shells: whatever it sends, they stay as
/// usable as they were.
pub proof fn lemma_mouse_keeps_shells(station: Station, byte: u8, lines: int)
    requires
        station.ready(lines),
    ensures
        (Station { desk: station.desk.byte(byte).0, ..station }).ready(lines),
{
    lemma_mouse_keeps_desktop(station.desk, byte);
    lemma_same_windows(station, station.desk.byte(byte).0, lines);
}

proof fn lemma_same_windows(station: Station, desk: Desk, lines: int)
    requires
        station.ready(lines),
        desk.wf(),
        desk.open == station.desk.open,
    ensures
        (Station { desk, ..station }).ready(lines),
{
}

/// Lost bytes leave a fresh decoder: no modifier is latched, and the bytes that
/// come next are taken as the start of a code.
pub proof fn lemma_lost_bytes_reset_decoder(station: Station)
    ensures
        station.lost().keys == Keys::start(),
        station.lost().desk == station.desk,
{
}

/// Closing and opening windows keeps the commands that both shells remember.
pub proof fn lemma_windows_keep_history(station: Station, event: InputEvent, index: int)
    requires
        station.terminals.len() == 2,
        0 <= index < 2,
    ensures
        station.event(event).terminals[index].history == station.terminals[index].history,
{
}

/// A change in the number of windows leaves no output and no unfinished command
/// in either terminal, and gives each the width of its window.
pub proof fn lemma_new_windows_start_afresh(station: Station, desk: Desk, index: int)
    requires
        station.terminals.len() == 2,
        0 <= index < 2,
        desk.open != station.desk.open,
    ensures
        station.arranged(desk).terminals[index] == station.terminals[index].widened(
            desk.columns(index),
        ).reset(),
        station.arranged(desk).terminals[index].line.text.len() == 0,
{
}

/// The screens of both terminals.
pub open spec fn screens(station: Station) -> Seq<Screen> {
    seq![station.terminals[0].screen, station.terminals[1].screen]
}

/// The text cursor is visible: unless the focused terminal is scrolled back, the
/// lines that its window shows end at the last line of the output, and the
/// picture has the cell under the cursor with swapped colors, but for the mouse
/// pointer above it.
pub proof fn lemma_cursor_is_visible(station: Station)
    requires
        station.ready(0),
        station.near_end(),
        station.desk.open[station.desk.active],
        ({
            let screen = station.terminals[station.desk.active].screen;
            screen.top == live_top_of(screen.last)
        }),
    ensures
        ({
            let front = station.desk.active;
            let back = 1 - front;
            let screen = station.terminals[front].screen;
            let rect = station.desk.rect(front)->0;
            let below = drawn_terminal(
                background(),
                station.desk.rect(back),
                back,
                false,
                station.terminals[back].screen,
            );
            let lines = drawn_lines(drawn_window(below, rect, front, true), rect, screen);
            let place = cursor_place(rect, screen);
            &&& station.desk.rect(front) is Some
            &&& screen.top <= screen.line <= screen.last <= screen.top + 15
            &&& 0 <= place < 2000
            &&& place != station.desk.pointer_y * 80 + station.desk.pointer_x ==> picture(
                station.desk,
                screens(station),
            )[place] == inverted(lines[place])
        }),
{
    let front = station.desk.active;
    let back = 1 - front;
    let screen = station.terminals[front].screen;
    let rect = station.desk.rect(front)->0;
    lemma_windows_on_screen(station.desk, front);
    assert(station.terminals[front].ready(0) && station.terminals[front].near_end()
        && station.in_columns(front));
    let below = drawn_terminal(
        background(),
        station.desk.rect(back),
        back,
        false,
        station.terminals[back].screen,
    );
    lemma_live_cursor_drawn(below, rect, front, screen);
    reveal_strlit("+");
    assert(screens(station)[front] == screen);
    assert(screens(station)[back] == station.terminals[back].screen);
}

} // verus!
