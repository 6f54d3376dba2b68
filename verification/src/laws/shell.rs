//! What entering, cancelling and clearing do.
use pc_keyboard::DecodedKey;
use vstd::prelude::*;

use crate::console::terminal_index;
use crate::desktop::InputEvent;
use crate::laws::editing::after_key;
use crate::shell::answers::{print_answer, Answer};
use crate::shell::arguments::{arguments_of, bytes_of, split, Fault};
use crate::shell::commands::{asks, command_about, command_at, command_name, respond};
use crate::shell::completion::print_names;
use crate::shell::history::remember;
use crate::shell::line::LineText;
use crate::shell::{print_prompt, Terminal};
use crate::system::{bar_color, label, logo, print_bars, Facts, SystemInfo};
use crate::task::session::Station;
use crate::text::chars;
use crate::vga_buffer::{lemma_print_concat, Screen};

verus! {

/// A line as the enter key leaves it on the screen: to its end, with the cursor
/// in the next line.
pub open spec fn below_line(terminal: Terminal) -> Screen {
    let line = terminal.line;
    terminal.screen.input(
        terminal.anchor_line,
        terminal.anchor_column,
        chars(line.text),
        line.text.len() as int,
        line.text.len() as int,
    ).print(seq!['\n'])
}

proof fn lemma_below(terminal: Terminal)
    ensures
        terminal.shown().printed("\n"@).screen == below_line(terminal),
{
    reveal_strlit("\n");
    assert("\n"@ =~= seq!['\n']);
}

/// The enter key runs the command: what it prints comes below the line, from
/// the history with the line already in it, and then a prompt; a command that
/// asks for something waits for it without a prompt. The next line starts empty,
/// behind what was printed.
pub proof fn lemma_enter_runs_command(
    terminal: Terminal,
    info: SystemInfo,
    facts: Facts,
    args: Seq<Seq<u8>>,
)
    requires
        !terminal.line.overflow,
        arguments_of(chars(terminal.line.text)) == Ok::<Seq<Seq<u8>>, Fault>(args),
    ensures
        ({
            let after = after_key(terminal, DecodedKey::Unicode('\n'), info, facts);
            let entries = remember(terminal.history.entries, terminal.line.at_end());
            let printed = respond(below_line(terminal), args, info, facts, entries);
            &&& after.line.text.len() == 0 && after.line.cursor == 0 && !after.line.overflow
            &&& after.history.entries == entries && after.history.browsing is None
            &&& asks(args) is None ==> after.screen == print_prompt(printed)
            &&& asks(args) is Some ==> after.screen == printed
            &&& after.anchor_line == after.screen.line
            &&& after.anchor_column == after.screen.column
            &&& terminal.request() == asks(args)
        }),
{
    reveal(Terminal::acted);
    assert('\n' as int == 0x0a);
    lemma_below(terminal);
}

/// A line that cannot be split is told off and remembered all the same; one that
/// was too long is told off and forgotten.
pub proof fn lemma_bad_lines_refused(
    terminal: Terminal,
    info: SystemInfo,
    facts: Facts,
    fault: Fault,
)
    requires
        terminal.line.overflow || arguments_of(chars(terminal.line.text)) == Err::<
            Seq<Seq<u8>>,
            Fault,
        >(fault),
    ensures
        ({
            let after = after_key(terminal, DecodedKey::Unicode('\n'), info, facts);
            let below = below_line(terminal);
            &&& after.line.text.len() == 0 && after.line.cursor == 0 && !after.line.overflow
            &&& terminal.line.overflow ==> after.history.entries == terminal.history.entries
                && after.screen == print_prompt(
                below.print("crabsh: input exceeds 256 bytes; command discarded.\n"@),
            )
            &&& !terminal.line.overflow ==> after.history.entries == remember(
                terminal.history.entries,
                terminal.line.at_end(),
            ) && after.screen == print_prompt(
                below.print("crabsh: "@ + fault.message() + "\n"@),
            )
            &&& terminal.request() is None
        }),
{
    reveal(Terminal::acted);
    assert('\n' as int == 0x0a);
    lemma_below(terminal);
    let below = below_line(terminal);
    lemma_print_concat(below, "crabsh: "@, fault.message());
    lemma_print_concat(below, "crabsh: "@ + fault.message(), "\n"@);
}

/// Lines of more than 256 characters, or with one outside ASCII, are not split;
/// any other is split byte by byte.
pub proof fn lemma_split_lines(text: Seq<char>)
    ensures
        text.len() > 256 ==> arguments_of(text) == Err::<Seq<Seq<u8>>, Fault>(Fault::Input),
        (exists|i: int| 0 <= i < text.len() && #[trigger] text[i] as int >= 128) ==> arguments_of(
            text,
        ) == Err::<Seq<Seq<u8>>, Fault>(Fault::Input),
        text.len() <= 256 && (forall|i: int|
            0 <= i < text.len() ==> #[trigger] text[i] as int <= 127) ==> arguments_of(text)
            == split(bytes_of(text)),
        forall|i: int|
            0 <= i < text.len() && text[i] as int <= 127 ==> #[trigger] bytes_of(text)[i] as int
                == text[i] as int,
{
    assert forall|i: int| 0 <= i < text.len() && text[i] as int <= 127 implies #[trigger] bytes_of(
        text,
    )[i] as int == text[i] as int by {
        crate::text::lemma_char(text[i]);
    }
}

/// Ctrl+C at the shell ends the line with a sign of it, Ctrl+L clears all but the
/// line, and a prompt comes in either case; neither forgets what was entered.
pub proof fn lemma_cancel_and_clear(
    terminal: Terminal,
    c: char,
    info: SystemInfo,
    facts: Facts,
)
    ensures
        ({
            let after = after_key(terminal, DecodedKey::Unicode(c), info, facts);
            &&& c as int == 0x03 ==> {
                &&& after.line.text.len() == 0 && !after.line.overflow
                &&& after.history.entries == terminal.history.entries
                &&& after.history.browsing is None
                &&& after.screen == print_prompt(terminal.shown().screen.print("^C\n"@))
            }
            &&& c as int == 0x0c ==> {
                let fresh = print_prompt(terminal.screen.cleared());
                &&& after.line == terminal.line && after.history == terminal.history
                &&& after.screen == fresh.input(
                    fresh.line,
                    fresh.column,
                    chars(terminal.line.text),
                    terminal.line.cursor,
                    0,
                )
                &&& after.anchor_line == fresh.line && after.anchor_column == fresh.column
            }
        }),
{
    reveal(Terminal::acted);
    assert('\n' as int == 0x0a && '\r' as int == 0x0d && '\t' as int == 0x09);
}

/// Lost bytes are told of below the line, which is gone.
pub proof fn lemma_loss_is_told(terminal: Terminal)
    ensures
        terminal.lost().screen == print_prompt(
            terminal.shown().screen.print(
                "^C\ncrabsh: keyboard input overflow; line discarded.\n"@
                    + "Release modifier keys before typing again.\n"@,
            ),
        ),
        terminal.lost().line.text.len() == 0,
{
    reveal(Terminal::lost);
    reveal_strlit("^C\n");
    reveal_strlit("crabsh: keyboard input overflow; line discarded.\n");
    reveal_strlit("^C\ncrabsh: keyboard input overflow; line discarded.\n");
    let s = terminal.shown().screen;
    let a = "^C\n"@;
    let b = "crabsh: keyboard input overflow; line discarded.\n"@;
    let c = "Release modifier keys before typing again.\n"@;
    assert(a + b =~= "^C\ncrabsh: keyboard input overflow; line discarded.\n"@);
    lemma_print_concat(s, a, b);
    lemma_print_concat(s, a + b, c);
}

/// An answer is printed where the cursor is, and a prompt below it; the line and
/// the history stay.
pub proof fn lemma_answer_then_prompt(terminal: Terminal, answer: Answer)
    ensures
        terminal.answered(answer).screen == print_prompt(print_answer(terminal.screen, answer)),
        terminal.answered(answer).line == terminal.line,
        terminal.answered(answer).history == terminal.history,
        terminal.answered(answer).anchor_line == terminal.answered(answer).screen.line,
        terminal.answered(answer).anchor_column == terminal.answered(answer).screen.column,
{
}

/// A shell starts with the display of the system on an empty screen, a welcome
/// and a prompt, with nothing typed or remembered.
pub proof fn lemma_shell_starts(screen: Screen, info: SystemInfo, facts: Facts)
    ensures
        ({
            let terminal = Terminal::started(screen, info, facts);
            let shown = info.print_fastfetch(screen.cleared(), facts);
            &&& terminal.line.text.len() == 0 && terminal.history.entries.len() == 0
            &&& terminal.screen == print_prompt(
                shown.print(
                    "Welcome to CrabOS. Type 'help' to get started.\n"@
                        + "Tab completes commands. Up/Down recalls history. PgUp/PgDn scrolls.\n\n"@,
                ),
            )
            &&& terminal.anchor_line == terminal.screen.line
            &&& terminal.anchor_column == terminal.screen.column
        }),
{
    let shown = info.print_fastfetch(screen.cleared(), facts);
    lemma_print_concat(
        shown,
        "Welcome to CrabOS. Type 'help' to get started.\n"@,
        "Tab completes commands. Up/Down recalls history. PgUp/PgDn scrolls.\n\n"@,
    );
}

/// A line of spaces, or one equal to the latest, is not remembered again. Any
/// other becomes the latest, behind the fifteen before it or as many as there
/// are.
pub proof fn lemma_remembering(entries: Seq<LineText>, line: LineText, i: int)
    requires
        entries.len() <= 16,
    ensures
        ({
            let after = remember(entries, line);
            let blank = forall|k: int| 0 <= k < line.text.len() ==> #[trigger] line.text[k] == 0x20;
            let again = entries.len() > 0 && entries.last().text == line.text;
            &&& blank || again ==> after == entries
            &&& !blank && !again ==> {
                &&& after.last() == line
                &&& entries.len() < 16 ==> after.len() == entries.len() + 1 && (0 <= i
                    < entries.len() ==> after[i] == entries[i])
                &&& entries.len() == 16 ==> after.len() == 16 && (0 <= i < 15 ==> after[i]
                    == entries[i + 1])
            }
        }),
{
}

/// Where several commands begin alike, their names are printed with two spaces
/// behind each.
pub proof fn lemma_names_listed(s: Screen, found: Seq<int>, index: int)
    ensures
        print_names(s, Seq::empty()) == s,
        print_names(s, found.push(index)) == print_names(s, found).print(
            command_name(index) + seq![' ', ' '],
        ),
{
    reveal_strlit("  ");
    assert("  "@ =~= seq![' ', ' ']);
    assert(found.push(index).drop_last() =~= found);
    lemma_print_concat(print_names(s, found), command_name(index), "  "@);
}

/// What the commands say they are for.
pub open spec fn is_purpose(command: Seq<char>, about: Seq<char>) -> bool {
    ||| command == "help"@ && about == "Show commands and keyboard shortcuts"@
    ||| command == "fastfetch"@ && about == "Show the CrabOS logo and live system information"@
    ||| command == "clear"@ && about == "Clear the screen and scrollback"@
    ||| command == "echo"@ && about == "Print arguments (quotes and backslash escapes supported)"@
    ||| command == "uname"@ && about == "Show kernel name; -a for version and architecture"@
    ||| command == "uptime"@ && about == "Show time since kernel initialization"@
    ||| command == "mem"@ && about == "Show boot memory and current heap allocation payloads"@
    ||| command == "history"@ && about == "Show the last 16 commands"@
    ||| command == "whoami"@ && about == "Show the console user"@
    ||| command == "hostname"@ && about == "Show the system name"@
    ||| command == "lspci"@ && about == "Find the supported Intel I225-V Ethernet controller"@
    ||| command == "net"@ && about == "Show Ethernet controller and link status"@
    ||| command == "browse"@ && about == "Fetch and show a plain HTTP page as text"@
}

/// Any command followed by `--help` alone says what it is for and does nothing
/// else.
pub proof fn lemma_help_of_commands(
    s: Screen,
    args: Seq<Seq<u8>>,
    info: SystemInfo,
    facts: Facts,
    entries: Seq<LineText>,
    about: Seq<char>,
)
    requires
        args.len() == 2,
        chars(args[1]) == "--help"@,
        is_purpose(chars(args[0]), about),
    ensures
        respond(s, args, info, facts, entries) == s.print(
            chars(args[0]) + ": "@ + about + "\n"@,
        ),
        asks(args) is None,
{
    crate::laws::output::lemma_names();
    let command = chars(args[0]);
    let index = command_at(command, 13)->0;
    assert(command_at(command, 13) is Some);
    assert(command_about(index) == about);
    lemma_print_concat(s, command, ": "@);
    lemma_print_concat(s, command + ": "@, about);
    lemma_print_concat(s, command + ": "@ + about, "\n"@);
}

/// Index 0 is the first terminal, and any other the second.
pub proof fn lemma_terminal_indices(index: usize)
    ensures
        index == 0 ==> terminal_index(index) == 0,
        index >= 1 ==> terminal_index(index) == 1,
{
}

/// The mouse closes the window that it asks to close, whichever is focused, and
/// opens the first one that is closed.
pub proof fn lemma_mouse_events(station: Station, index: usize)
    requires
        station.terminals.len() == 2,
        station.desk.wf(),
        index < 2,
    ensures
        ({
            let after = station.event(InputEvent::CloseTerminal(index)).desk;
            &&& !after.open[index as int]
            &&& after.open[1 - index] == station.desk.open[1 - index]
        }),
        ({
            let before = station.desk;
            let after = station.event(InputEvent::OpenTerminal).desk;
            &&& !before.open[0] ==> after.open[0] && after.open[1] == before.open[1] && after.active
                == 0
            &&& before.open[0] ==> after.open[0] && after.open[1]
            &&& before.open[0] && !before.open[1] ==> after.active == 1
            &&& before.open[0] && before.open[1] ==> after == before
        }),
{
}

/// The display of the system: each line has its part of the picture in light
/// red, two spaces, its label in light cyan, a colon where a value follows, and
/// the value in light gray.
pub proof fn lemma_system_lines(info: SystemInfo, s: Screen, facts: Facts, n: int)
    requires
        0 <= n < 12,
    ensures
        info.print_lines(s, 0, facts) == s,
        ({
            let before = info.print_lines(s, n, facts);
            let picture = (Screen { color: 12, ..before }).print(logo(n) + seq![' ', ' ']);
            let named = (Screen { color: 11, ..picture }).print(label(n));
            let open = if 2 <= n <= 10 {
                (Screen { color: 7, ..named }).print(seq![':', ' '])
            } else {
                named
            };
            let valued = info.print_value(open, n, facts);
            info.print_lines(s, n + 1, facts) == (Screen { color: 7, ..valued }).print(seq!['\n'])
        }),
        info.print_fastfetch(s, facts) == info.print_lines(s, 12, facts).print(seq!['\n']),
{
    reveal_strlit("  ");
    reveal_strlit(": ");
    reveal_strlit("\n");
    assert("  "@ =~= seq![' ', ' ']);
    assert(": "@ =~= seq![':', ' ']);
    assert("\n"@ =~= seq!['\n']);
    let before = info.print_lines(s, n, facts);
    lemma_print_concat(Screen { color: 12, ..before }, logo(n), "  "@);
}

/// The numbers of the colors of the eight bars.
pub open spec fn bar_number(i: int) -> u8 {
    if i == 0 {
        4
    } else if i == 1 {
        2
    } else if i == 2 {
        6
    } else if i == 3 {
        1
    } else if i == 4 {
        5
    } else if i == 5 {
        3
    } else if i == 6 {
        7
    } else {
        15
    }
}

/// The display ends in bars of three cells, each in one color on itself: red,
/// green, brown, blue, magenta, cyan, light gray and white.
pub proof fn lemma_bars(s: Screen, n: int)
    requires
        0 <= n < 8,
    ensures
        print_bars(s, 0) == s,
        bar_color(n).number() == bar_number(n),
        print_bars(s, n + 1) == (Screen {
            color: (17 * bar_number(n)) as u8,
            ..print_bars(s, n)
        }).print(seq![' ', ' ', ' ']),
{
    reveal_strlit("   ");
    assert("   "@ =~= seq![' ', ' ', ' ']);
}

} // verus!
