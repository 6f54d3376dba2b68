//! A bounded command editor and in-kernel command shell.
//! This is not a POSIX shell: commands run in the kernel, without processes.
pub mod history;
pub mod line;
pub mod arguments;
pub mod commands;
pub mod answers;
pub mod keys;
pub mod completion;

use pc_keyboard::DecodedKey;
use vstd::prelude::*;

use crate::shell::answers::{answer_lines, print_answer, write_answer, Answer};
use crate::shell::arguments::{arguments_of, Arguments};
use crate::shell::commands::{
    asked, asks, command_about, command_at, respond, run, Asked, Request,
};
use crate::shell::completion::{
    completes, completion, extend, find_matches, is_ambiguous, lemma_first_match, matching,
    print_names, write_names,
};
use crate::shell::history::{History, Recall};
use crate::shell::keys::{action_of_key, key_action, Action};
use crate::shell::line::{Line, LineText};
use crate::system::{Facts, SystemInfo};
use crate::text::{chars, is_printable};
use crate::vga_buffer::{
    advances, is_ascii_text, is_plain_text, lemma_input_fits, live_top_of, Color, Position, Screen,
    Writer,
};

verus! {

/// A shell together with the screen that it writes on: the line being edited,
/// the lines before it, the place of the prompt's end, and what is shown.
#[verifier::ext_equal]
pub struct Terminal {
    pub line: LineText,
    pub history: Recall,
    pub anchor_line: int,
    pub anchor_column: int,
    pub screen: Screen,
}

pub open spec fn print_prompt(s: Screen) -> Screen {
    s.colored(Color::LightGreen, Color::Black).print("shaolin@crabos"@).colored(
        Color::LightGray,
        Color::Black,
    ).print(":"@).colored(Color::LightBlue, Color::Black).print("~"@).colored(
        Color::LightGray,
        Color::Black,
    ).print("$ "@)
}

/// What a new shell shows above its first prompt.
pub open spec fn print_welcome(s: Screen, info: SystemInfo, facts: Facts) -> Screen {
    info.print_fastfetch(s.cleared(), facts).print(
        "Welcome to CrabOS. Type 'help' to get started.\n"@,
    ).print("Tab completes commands. Up/Down recalls history. PgUp/PgDn scrolls.\n\n"@)
}

impl Terminal {
    /// The lower one of the cursor's line and the prompt's.
    pub open spec fn lowest(self) -> int {
        if self.screen.line > self.anchor_line {
            self.screen.line
        } else {
            self.anchor_line
        }
    }

    /// Whether input can be drawn behind the prompt and output below it, for
    /// `lines` more lines.
    pub open spec fn ready(self, lines: int) -> bool {
        &&& self.line.wf()
        &&& self.history.wf()
        &&& self.screen.wf()
        &&& self.screen.columns >= 3
        &&& self.screen.column <= self.screen.columns
        &&& self.screen.first <= self.screen.line <= self.screen.last
        &&& self.screen.first <= self.anchor_line
        &&& 0 <= self.anchor_column <= self.screen.columns
        &&& self.lowest() + lines <= usize::MAX
    }

    /// Whether the output ends at the input: the cursor is not above the prompt,
    /// and the last line is at most as far below the prompt as a full line of
    /// input reaches in half the screen.
    pub open spec fn near_end(self) -> bool {
        &&& self.anchor_line <= self.screen.line
        &&& self.screen.columns >= 36 ==> self.screen.last <= self.anchor_line + 8
    }

    /// A new shell on a screen.
    pub open spec fn started(screen: Screen, info: SystemInfo, facts: Facts) -> Terminal {
        Terminal {
            line: LineText::empty(),
            history: Recall { entries: Seq::empty(), browsing: None, draft: LineText::empty() },
            anchor_line: 0,
            anchor_column: 0,
            screen: print_welcome(screen, info, facts),
        }.prompted()
    }

    pub open spec fn on(self, screen: Screen) -> Terminal {
        Terminal { screen, ..self }
    }

    pub open spec fn printed(self, text: Seq<char>) -> Terminal {
        self.on(self.screen.print(text))
    }

    /// With the prompt's end where the cursor is.
    pub open spec fn anchored(self) -> Terminal {
        Terminal {
            anchor_line: self.screen.line,
            anchor_column: self.screen.column,
            ..self
        }
    }

    pub open spec fn prompted(self) -> Terminal {
        self.on(print_prompt(self.screen)).anchored()
    }

    /// With the line drawn again, over `old_len` characters.
    pub open spec fn redrawn(self, old_len: int) -> Terminal {
        self.on(
            self.screen.input(
                self.anchor_line,
                self.anchor_column,
                chars(self.line.text),
                self.line.cursor,
                old_len,
            ),
        )
    }

    pub open spec fn with_line(self, line: LineText) -> Terminal {
        Terminal { line, ..self }
    }

    /// With the line changed and drawn again.
    pub open spec fn edited(self, line: LineText) -> Terminal {
        self.with_line(line).redrawn(self.line.text.len() as int)
    }

    /// With the line shown to its end.
    pub open spec fn shown(self) -> Terminal {
        self.edited(self.line.at_end())
    }

    /// With an empty line, not browsing the history.
    pub open spec fn discarded(self) -> Terminal {
        Terminal {
            line: LineText::empty(),
            history: Recall { browsing: None, ..self.history },
            ..self
        }
    }

    /// What the line asks for when it is entered.
    pub open spec fn request(self) -> Option<Asked> {
        if self.line.overflow {
            None
        } else {
            match arguments_of(chars(self.line.text)) {
                Ok(args) => asks(args),
                Err(_) => None,
            }
        }
    }

    /// After the line was entered. A new prompt follows, but for a command
    /// whose answer is still to come.
    pub open spec fn entered(self, info: SystemInfo, facts: Facts) -> Terminal {
        let below = self.shown().printed("\n"@);
        if self.line.overflow {
            below.printed(
                "crabsh: input exceeds 256 bytes; command discarded.\n"@,
            ).discarded().prompted()
        } else {
            let recorded = Terminal {
                line: LineText::empty(),
                history: self.history.recorded(self.line.at_end()),
                ..below
            };
            match arguments_of(chars(self.line.text)) {
                Err(fault) => recorded.printed("crabsh: "@).printed(fault.message()).printed(
                    "\n"@,
                ).prompted(),
                Ok(args) => {
                    let done = recorded.on(
                        respond(below.screen, args, info, facts, recorded.history.entries),
                    );
                    if asks(args) is Some {
                        done.anchored()
                    } else {
                        done.prompted()
                    }
                },
            }
        }
    }

    pub open spec fn answered(self, answer: Answer) -> Terminal {
        self.on(print_answer(self.screen, answer)).prompted()
    }

    pub open spec fn cancelled(self) -> Terminal {
        self.shown().printed("^C\n"@).discarded().prompted()
    }

    /// After bytes of the keyboard were lost.
    #[verifier::opaque]
    pub open spec fn lost(self) -> Terminal {
        self.shown().printed("^C\n"@).printed(
            "crabsh: keyboard input overflow; line discarded.\n"@,
        ).printed("Release modifier keys before typing again.\n"@).discarded().prompted()
    }

    /// With everything but the line gone.
    pub open spec fn wiped(self) -> Terminal {
        self.on(self.screen.cleared()).prompted().redrawn(0)
    }

    pub open spec fn reset(self) -> Terminal {
        Terminal { line: LineText::empty(), ..self.on(self.screen.cleared()) }.prompted()
    }

    /// After the tab key.
    pub open spec fn completed(self) -> Terminal {
        let typed = self.line.text.len() as int;
        if !completes(self.line) {
            self
        } else if is_ambiguous(self.line) {
            let listed = self.redrawn(typed).printed("\n"@);
            listed.on(
                print_names(listed.screen, matching(chars(self.line.text), 13)),
            ).printed("\n"@).prompted().redrawn(typed)
        } else {
            self.edited(completion(self.line))
        }
    }

    /// After an action of the keyboard.
    #[verifier::opaque]
    pub open spec fn acted(self, action: Action, info: SystemInfo, facts: Facts) -> Terminal {
        let line = self.line;
        let end = line.text.len() as int;
        match action {
            Action::Enter => self.entered(info, facts),
            Action::Cancel => self.cancelled(),
            Action::Clear => self.wiped(),
            Action::Complete => self.completed(),
            Action::Backspace => self.edited(line.backspaced()),
            Action::Delete => self.edited(line.deleted()),
            Action::Start => self.edited(line.at(0)),
            Action::End => self.edited(line.at(end)),
            Action::Left => self.edited(
                line.at(
                    if line.cursor > 0 {
                        line.cursor - 1
                    } else {
                        0
                    },
                ),
            ),
            Action::Right => self.edited(
                line.at(
                    if line.cursor < end {
                        line.cursor + 1
                    } else {
                        end
                    },
                ),
            ),
            Action::Previous => self.recalled(self.history.back(line)),
            Action::Next => self.recalled(self.history.forward(line)),
            Action::EraseBefore => self.edited(line.without(0, line.cursor)),
            Action::EraseAfter => self.edited(line.without(line.cursor, end)),
            Action::EraseWord => self.edited(line.without(line.word_start(), line.cursor)),
            Action::PageUp => self.on(self.screen.scrolled_up()),
            Action::PageDown => self.on(self.screen.scrolled_down()),
            Action::Insert(byte) => self.edited(line.inserted(byte)),
            Action::Nothing => self,
        }
    }

    pub open spec fn recalled(self, step: (Recall, LineText)) -> Terminal {
        Terminal { history: step.0, ..self }.edited(step.1)
    }
}

pub struct Shell {
    pub info: SystemInfo,
    pub line: Line,
    pub history: History,
    pub anchor: Position,
}

impl Shell {
    pub open spec fn wf(&self) -> bool {
        self.line.wf() && self.history.wf()
    }

    /// The shell on a screen.
    pub open spec fn on(&self, screen: Screen) -> Terminal {
        Terminal {
            line: self.line@,
            history: self.history@,
            anchor_line: self.anchor.line as int,
            anchor_column: self.anchor.column as int,
            screen,
        }
    }

    fn prompt(writer: &mut Writer) -> (anchor: Position)
        requires
            old(writer)@.room(72),
        ensures
            final(writer)@ == print_prompt(old(writer)@),
            anchor.line == final(writer)@.line,
            anchor.column == final(writer)@.column,
            advances(old(writer)@, final(writer)@, 72),
    {
        proof {
            reveal_strlit("shaolin@crabos");
            reveal_strlit(":");
            reveal_strlit("~");
            reveal_strlit("$ ");
        }
        writer.set_color(Color::LightGreen, Color::Black);
        writer.write_str("shaolin@crabos");
        writer.set_color(Color::LightGray, Color::Black);
        writer.write_str(":");
        writer.set_color(Color::LightBlue, Color::Black);
        writer.write_str("~");
        writer.set_color(Color::LightGray, Color::Black);
        writer.write_str("$ ");
        writer.position()
    }

    pub fn new(info: SystemInfo, facts: &Facts, writer: &mut Writer) -> (shell: Shell)
        requires
            old(writer)@.wf(),
        ensures
            shell.wf(),
            shell.info == info,
            shell.on(final(writer)@) == Terminal::started(old(writer)@, info, *facts),
            old(writer)@.columns >= 3 ==> shell.on(final(writer)@).ready(0),
            shell.on(final(writer)@).near_end(),
            shell.on(final(writer)@).lowest() <= 7000,
            final(writer)@.columns == old(writer)@.columns,
    {
        proof {
            reveal_strlit("Welcome to CrabOS. Type 'help' to get started.\n");
            reveal_strlit(
                "Tab completes commands. Up/Down recalls history. PgUp/PgDn scrolls.\n\n",
            );
        }
        writer.clear();
        info.fastfetch(facts, writer);
        writer.write_str("Welcome to CrabOS. Type 'help' to get started.\n");
        writer.write_str(
            "Tab completes commands. Up/Down recalls history. PgUp/PgDn scrolls.\n\n",
        );
        let anchor: Position = Self::prompt(writer);
        Shell { info, line: Line::new(), history: History::new(), anchor }
    }

    fn redraw(&self, old_len: usize, writer: &mut Writer)
        requires
            self.wf(),
            self.on(old(writer)@).ready(2048),
            old_len <= 256,
        ensures
            self.on(final(writer)@) == self.on(old(writer)@).redrawn(old_len as int),
            self.on(final(writer)@).ready(0),
            self.on(final(writer)@).anchor_line <= final(writer)@.line,
            self.on(old(writer)@).near_end() ==> self.on(final(writer)@).near_end(),
            self.on(final(writer)@).lowest() <= self.anchor.line + 86,
            final(writer)@.columns == old(writer)@.columns,
    {
        let text: &str = self.line.as_str();
        proof {
            assert(is_plain_text(text@) && is_ascii_text(text@)) by {
                assert forall|i: int| 0 <= i < text@.len() implies (#[trigger] text@[i]) as int
                    == self.line@.text[i] && is_printable(self.line@.text[i]) by {}
            }
            lemma_input_fits(
                writer@,
                self.anchor.line as int,
                self.anchor.column as int,
                text@,
                self.line@.cursor,
                old_len as int,
            );
        }
        writer.replace_input(self.anchor, text, self.line.cursor, old_len);
    }

    /// Clear this terminal's old layout and anchor a fresh prompt after resize.
    pub fn reset_for_resize(&mut self, writer: &mut Writer)
        requires
            old(self).wf(),
            old(writer)@.wf(),
        ensures
            final(self).wf(),
            final(self).info == old(self).info,
            final(self).on(final(writer)@) == old(self).on(old(writer)@).reset(),
            old(writer)@.columns >= 3 ==> final(self).on(final(writer)@).ready(0),
            final(self).on(final(writer)@).near_end(),
            final(self).on(final(writer)@).lowest() <= 72,
            final(writer)@.columns == old(writer)@.columns,
    {
        writer.clear();
        self.line = Line::new();
        self.anchor = Self::prompt(writer);
    }

    /// Show the whole line, with the cursor behind it.
    fn leave(&mut self, writer: &mut Writer)
        requires
            old(self).wf(),
            old(self).on(old(writer)@).ready(2048),
        ensures
            final(self).wf(),
            final(self).info == old(self).info,
            final(self).on(final(writer)@) == old(self).on(old(writer)@).shown(),
            final(self).on(final(writer)@).ready(0),
            old(self).on(old(writer)@).near_end() ==> final(self).on(final(writer)@).near_end(),
            final(self).on(final(writer)@).lowest() <= old(self).anchor.line + 86,
            final(writer)@.columns == old(writer)@.columns,
    {
        let len: usize = self.line.len;
        self.line.move_to(len);
        self.redraw(len, writer);
    }

    /// Drop the line and show a new prompt.
    fn discard(&mut self, writer: &mut Writer)
        requires
            old(self).wf(),
            old(writer)@.room(72),
            old(writer)@.first <= old(writer)@.line <= old(writer)@.last,
        ensures
            final(self).wf(),
            final(self).info == old(self).info,
            final(self).on(final(writer)@) == old(self).on(old(writer)@).discarded().prompted(),
            old(writer)@.columns >= 3 ==> final(self).on(final(writer)@).ready(0),
            (old(writer)@.columns >= 36 ==> old(writer)@.last <= old(writer)@.line + 8)
                ==> final(self).on(final(writer)@).near_end(),
            final(self).on(final(writer)@).lowest() <= old(writer)@.line + 72,
            final(writer)@.columns == old(writer)@.columns,
    {
        self.line = Line::new();
        self.history.stop_browsing();
        self.anchor = Self::prompt(writer);
    }

    pub fn input_lost(&mut self, writer: &mut Writer)
        requires
            old(self).wf(),
            old(self).on(old(writer)@).ready(2048),
        ensures
            final(self).wf(),
            final(self).info == old(self).info,
            final(self).on(final(writer)@) == old(self).on(old(writer)@).lost(),
            final(self).on(final(writer)@).ready(0),
            old(self).on(old(writer)@).near_end() ==> final(self).on(final(writer)@).near_end(),
            final(self).on(final(writer)@).lowest() <= old(self).on(old(writer)@).lowest() + 2048,
            final(writer)@.columns == old(writer)@.columns,
    {
        proof {
            reveal(Terminal::lost);
            reveal_strlit("^C\n");
            reveal_strlit("crabsh: keyboard input overflow; line discarded.\n");
            reveal_strlit("Release modifier keys before typing again.\n");
        }
        self.leave(writer);
        writer.write_str("^C\n");
        writer.write_str("crabsh: keyboard input overflow; line discarded.\n");
        writer.write_str("Release modifier keys before typing again.\n");
        self.discard(writer);
    }

    fn cancel(&mut self, writer: &mut Writer)
        requires
            old(self).wf(),
            old(self).on(old(writer)@).ready(2048),
        ensures
            final(self).wf(),
            final(self).info == old(self).info,
            final(self).on(final(writer)@) == old(self).on(old(writer)@).cancelled(),
            final(self).on(final(writer)@).ready(0),
            old(self).on(old(writer)@).near_end() ==> final(self).on(final(writer)@).near_end(),
            final(self).on(final(writer)@).lowest() <= old(self).on(old(writer)@).lowest() + 2048,
            final(writer)@.columns == old(writer)@.columns,
    {
        proof {
            reveal_strlit("^C\n");
        }
        self.leave(writer);
        writer.write_str("^C\n");
        self.discard(writer);
    }

    /// Clear the screen and scrollback, keeping the line.
    fn wipe(&mut self, writer: &mut Writer)
        requires
            old(self).wf(),
            old(self).on(old(writer)@).ready(2048),
        ensures
            final(self).wf(),
            final(self).info == old(self).info,
            final(self).on(final(writer)@) == old(self).on(old(writer)@).wiped(),
            final(self).on(final(writer)@).ready(0),
            old(self).on(old(writer)@).near_end() ==> final(self).on(final(writer)@).near_end(),
            final(self).on(final(writer)@).lowest() <= 2048,
            final(writer)@.columns == old(writer)@.columns,
    {
        writer.clear();
        self.anchor = Self::prompt(writer);
        self.redraw(0, writer);
    }

    fn complete(&mut self, writer: &mut Writer)
        requires
            old(self).wf(),
            old(self).on(old(writer)@).ready(5000),
        ensures
            final(self).wf(),
            final(self).info == old(self).info,
            final(self).on(final(writer)@) == old(self).on(old(writer)@).completed(),
            final(self).on(final(writer)@).ready(0),
            old(self).on(old(writer)@).near_end() ==> final(self).on(final(writer)@).near_end(),
            final(self).on(final(writer)@).lowest() <= old(self).on(old(writer)@).lowest() + 5000,
            final(writer)@.columns == old(writer)@.columns,
    {
        if self.line.cursor != self.line.len || self.has_space() {
            return;
        }
        let typed: usize = self.line.len;
        let prefix: Line = self.line;
        match find_matches(prefix.as_str()) {
            None => {},
            Some((first, common, count)) => {
                proof {
                    lemma_first_match(chars(self.line@.text));
                }
                if count > 1 && common == typed {
                    proof {
                        reveal_strlit("\n");
                    }
                    self.redraw(typed, writer);
                    writer.write_str("\n");
                    write_names(prefix.as_str(), writer);
                    writer.write_str("\n");
                    self.anchor = Self::prompt(writer);
                    self.redraw(typed, writer);
                } else {
                    extend(&mut self.line, first, common);
                    if count == 1 {
                        let _ = self.line.insert(0x20);
                    }
                    self.redraw(typed, writer);
                }
            },
        }
    }

    fn has_space(&self) -> (found: bool)
        requires
            self.wf(),
        ensures
            !found == (forall|i: int|
                0 <= i < self.line@.text.len() ==> #[trigger] self.line@.text[i] != 0x20),
    {
        let mut i: usize = 0;
        while i < self.line.len
            invariant
                i <= self.line.len <= 256,
                forall|k: int| 0 <= k < i ==> #[trigger] self.line@.text[k] != 0x20,
            decreases self.line.len - i,
        {
            if self.line.bytes[i] == 0x20 {
                assert(self.line@.text[i as int] == 0x20);
                return true;
            }
            i += 1;
        }
        false
    }

    /// Run a command line.
    fn execute(&self, input: &str, facts: &Facts, writer: &mut Writer) -> (request: Option<Request>)
        requires
            self.wf(),
            old(writer)@.room(33000),
        ensures
            match arguments_of(input@) {
                Ok(args) => {
                    &&& final(writer)@ == respond(
                        old(writer)@,
                        args,
                        self.info,
                        *facts,
                        self.history@.entries,
                    )
                    &&& asked(request) == asks(args)
                },
                Err(fault) => {
                    &&& final(writer)@ == old(writer)@.print("crabsh: "@).print(
                        fault.message(),
                    ).print("\n"@)
                    &&& request is None
                },
            },
            advances(old(writer)@, final(writer)@, 33000),
    {
        proof {
            reveal_strlit("crabsh: ");
            reveal_strlit("\n");
            reveal_strlit("input must be at most 256 ASCII bytes");
            reveal_strlit("pipes, redirection and command chaining are not available");
            reveal_strlit("unfinished backslash escape");
            reveal_strlit("unclosed quote");
            reveal_strlit("too many arguments (maximum 32)");
        }
        match Arguments::parse(input) {
            Ok(args) => run(&args, &self.info, facts, &self.history, writer),
            Err(message) => {
                writer.write_str("crabsh: ");
                writer.write_str(message);
                writer.write_str("\n");
                None
            },
        }
    }

    fn enter(&mut self, facts: &Facts, writer: &mut Writer) -> (request: Option<Request>)
        requires
            old(self).wf(),
            old(self).on(old(writer)@).ready(40000),
        ensures
            final(self).wf(),
            final(self).info == old(self).info,
            final(self).on(final(writer)@) == old(self).on(old(writer)@).entered(
                old(self).info,
                *facts,
            ),
            asked(request) == old(self).on(old(writer)@).request(),
            final(self).on(final(writer)@).ready(0),
            old(self).on(old(writer)@).near_end() ==> final(self).on(final(writer)@).near_end(),
            final(self).on(final(writer)@).lowest() <= old(self).on(old(writer)@).lowest() + 40000,
            final(writer)@.columns == old(writer)@.columns,
    {
        proof {
            reveal_strlit("\n");
            reveal_strlit("crabsh: input exceeds 256 bytes; command discarded.\n");
        }
        self.leave(writer);
        writer.write_str("\n");
        if self.line.overflow {
            writer.write_str("crabsh: input exceeds 256 bytes; command discarded.\n");
            self.discard(writer);
            return None;
        }
        let line: Line = self.line;
        self.history.record(line);
        let request: Option<Request> = self.execute(line.as_str(), facts, writer);
        self.line = Line::new();
        if request.is_some() {
            self.anchor = writer.position();
        } else {
            self.anchor = Self::prompt(writer);
        }
        request
    }

    /// Print the answer to a request, and a new prompt.
    pub fn answer(&mut self, answer: &Answer, writer: &mut Writer)
        requires
            old(self).wf(),
            old(self).on(old(writer)@).ready(answer_lines(*answer) + 72),
        ensures
            final(self).wf(),
            final(self).info == old(self).info,
            final(self).on(final(writer)@) == old(self).on(old(writer)@).answered(*answer),
            final(self).on(final(writer)@).ready(0),
            old(self).on(old(writer)@).near_end() ==> final(self).on(final(writer)@).near_end(),
            final(self).on(final(writer)@).lowest() <= old(writer)@.line + answer_lines(*answer)
                + 72,
            final(writer)@.columns == old(writer)@.columns,
    {
        write_answer(answer, writer);
        self.anchor = Self::prompt(writer);
    }

    /// React to a key.
    pub fn handle_key(&mut self, key: DecodedKey, facts: &Facts, writer: &mut Writer) -> (request:
        Option<Request>)
        requires
            old(self).wf(),
            old(self).on(old(writer)@).ready(40000),
        ensures
            final(self).wf(),
            final(self).info == old(self).info,
            final(self).on(final(writer)@) == old(self).on(old(writer)@).acted(
                action_of_key(key),
                old(self).info,
                *facts,
            ),
            asked(request) == (if action_of_key(key) == Action::Enter {
                old(self).on(old(writer)@).request()
            } else {
                None
            }),
            final(self).on(final(writer)@).ready(0),
            old(self).on(old(writer)@).near_end() ==> final(self).on(final(writer)@).near_end(),
            final(self).on(final(writer)@).lowest() <= old(self).on(old(writer)@).lowest() + 40000,
            final(writer)@.columns == old(writer)@.columns,
    {
        reveal(Terminal::acted);
        let old_len: usize = self.line.len;
        let cursor: usize = self.line.cursor;
        match key_action(key) {
            Action::Enter => {
                return self.enter(facts, writer);
            },
            Action::Cancel => {
                self.cancel(writer);
                return None;
            },
            Action::Clear => {
                self.wipe(writer);
                return None;
            },
            Action::Complete => {
                self.complete(writer);
                return None;
            },
            Action::PageUp => {
                writer.scroll_up();
                return None;
            },
            Action::PageDown => {
                writer.scroll_down();
                return None;
            },
            Action::Nothing => {
                return None;
            },
            Action::Backspace => self.line.backspace(),
            Action::Delete => self.line.delete(),
            Action::Start => self.line.move_to(0),
            Action::End => self.line.move_to(old_len),
            Action::Left => self.line.move_to(
                if cursor > 0 {
                    cursor - 1
                } else {
                    0
                },
            ),
            Action::Right => self.line.move_to(
                if cursor < old_len {
                    cursor + 1
                } else {
                    old_len
                },
            ),
            Action::Previous => {
                let line: Line = self.line;
                self.line = self.history.previous(line);
            },
            Action::Next => {
                let line: Line = self.line;
                self.line = self.history.next(line);
            },
            Action::EraseBefore => self.line.erase_to_start(),
            Action::EraseAfter => self.line.erase_to_end(),
            Action::EraseWord => self.line.delete_word(),
            Action::Insert(byte) => {
                let _ = self.line.insert(byte);
            },
        }
        self.redraw(old_len, writer);
        None
    }
}

/// Input that overflowed is rejected when it is entered: nothing is run or
/// remembered, and the next line starts empty.
pub proof fn lemma_overlong_input_rejected(terminal: Terminal, info: SystemInfo, facts: Facts)
    requires
        terminal.line.overflow,
    ensures
        terminal.request() is None,
        terminal.entered(info, facts).line == LineText::empty(),
        terminal.entered(info, facts).history.entries == terminal.history.entries,
{
}

/// Entering leaves an empty line, whatever was typed.
pub proof fn lemma_enter_clears_line(terminal: Terminal, info: SystemInfo, facts: Facts)
    ensures
        terminal.entered(info, facts).line == LineText::empty(),
        terminal.entered(info, facts).history.browsing is None,
{
}

/// Whatever was typed is remembered as `remember` says, unless it overflowed.
pub proof fn lemma_enter_remembers(terminal: Terminal, info: SystemInfo, facts: Facts)
    requires
        !terminal.line.overflow,
    ensures
        terminal.entered(info, facts).history == terminal.history.recorded(
            terminal.line.at_end(),
        ),
{
}

/// Typing or editing returns to the live display after scrolling.
pub proof fn lemma_editing_shows_live_display(terminal: Terminal, line: LineText)
    ensures
        terminal.edited(line).screen.top == live_top_of(terminal.edited(line).screen.last),
{
}

/// Clearing the screen keeps the command and the history.
pub proof fn lemma_clear_keeps_command(terminal: Terminal)
    ensures
        terminal.wiped().line == terminal.line,
        terminal.wiped().history == terminal.history,
{
}

/// Resizing drops the unfinished command and the output, and keeps the history:
/// what is shown is a prompt on an empty screen.
pub proof fn lemma_resize_keeps_history(terminal: Terminal)
    ensures
        terminal.reset().line == LineText::empty(),
        terminal.reset().history == terminal.history,
        terminal.reset().screen == print_prompt(terminal.screen.cleared()),
{
}

/// Losing bytes of the keyboard discards the line and nothing that was
/// remembered.
pub proof fn lemma_lost_input_discarded(terminal: Terminal)
    ensures
        terminal.lost().line == LineText::empty(),
        terminal.lost().history.entries == terminal.history.entries,
        terminal.lost().history.browsing is None,
{
    reveal(Terminal::lost);
}

/// Every command says what it is for when it is asked with `--help`, and asks
/// for nothing.
pub proof fn lemma_commands_accept_help(
    s: Screen,
    args: Seq<Seq<u8>>,
    info: SystemInfo,
    facts: Facts,
    entries: Seq<LineText>,
    index: int,
)
    requires
        args.len() == 2,
        chars(args[1]) == "--help"@,
        command_at(chars(args[0]), 13) == Some(index),
    ensures
        respond(s, args, info, facts, entries) == s.print(chars(args[0])).print(": "@).print(
            command_about(index),
        ).print("\n"@),
        asks(args) is None,
{
}

} // verus!
