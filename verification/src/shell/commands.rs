//! The built-in commands and their output.
use vstd::prelude::*;

use crate::net::web::{url_of, Url};
use crate::shell::arguments::Arguments;
use crate::shell::history::History;
use crate::shell::line::{Line, LineText};
use crate::system::{print_duration, write_duration, Facts, SystemInfo, VERSION};
use crate::text::{chars, decimal, same, spaces};
use crate::vga_buffer::{advances, Screen, Writer};

verus! {

pub const COMMANDS: usize = 13;

pub open spec fn command_name(index: int) -> Seq<char> {
    if index == 0 {
        "help"@
    } else if index == 1 {
        "fastfetch"@
    } else if index == 2 {
        "clear"@
    } else if index == 3 {
        "echo"@
    } else if index == 4 {
        "uname"@
    } else if index == 5 {
        "uptime"@
    } else if index == 6 {
        "mem"@
    } else if index == 7 {
        "history"@
    } else if index == 8 {
        "whoami"@
    } else if index == 9 {
        "hostname"@
    } else if index == 10 {
        "lspci"@
    } else if index == 11 {
        "net"@
    } else {
        "browse"@
    }
}

pub open spec fn command_about(index: int) -> Seq<char> {
    if index == 0 {
        "Show commands and keyboard shortcuts"@
    } else if index == 1 {
        "Show the CrabOS logo and live system information"@
    } else if index == 2 {
        "Clear the screen and scrollback"@
    } else if index == 3 {
        "Print arguments (quotes and backslash escapes supported)"@
    } else if index == 4 {
        "Show kernel name; -a for version and architecture"@
    } else if index == 5 {
        "Show time since kernel initialization"@
    } else if index == 6 {
        "Show boot memory and current heap allocation payloads"@
    } else if index == 7 {
        "Show the last 16 commands"@
    } else if index == 8 {
        "Show the console user"@
    } else if index == 9 {
        "Show the system name"@
    } else if index == 10 {
        "Find the supported Intel I225-V Ethernet controller"@
    } else if index == 11 {
        "Show Ethernet controller and link status"@
    } else {
        "Fetch and show a plain HTTP page as text"@
    }
}

pub fn name_of(index: usize) -> (name: &'static str)
    requires
        index < 13,
    ensures
        name@ == command_name(index as int),
        name@.len() <= 9,
{
    proof {
        lemma_command_names(index as int);
    }
    match index {
        0 => "help",
        1 => "fastfetch",
        2 => "clear",
        3 => "echo",
        4 => "uname",
        5 => "uptime",
        6 => "mem",
        7 => "history",
        8 => "whoami",
        9 => "hostname",
        10 => "lspci",
        11 => "net",
        _ => "browse",
    }
}

/// Command names are short and made of small letters.
pub proof fn lemma_command_names(index: int)
    ensures
        1 <= command_name(index).len() <= 9,
        forall|k: int|
            0 <= k < command_name(index).len() ==> 0x61 <= #[trigger] command_name(index)[k] as int
                <= 0x7a,
{
    reveal_strlit("help");
    reveal_strlit("fastfetch");
    reveal_strlit("clear");
    reveal_strlit("echo");
    reveal_strlit("uname");
    reveal_strlit("uptime");
    reveal_strlit("mem");
    reveal_strlit("history");
    reveal_strlit("whoami");
    reveal_strlit("hostname");
    reveal_strlit("lspci");
    reveal_strlit("net");
    reveal_strlit("browse");
}

fn about_of(index: usize) -> (about: &'static str)
    requires
        index < 13,
    ensures
        about@ == command_about(index as int),
        about@.len() <= 60,
{
    proof {
        reveal_strlit("Show commands and keyboard shortcuts");
        reveal_strlit("Show the CrabOS logo and live system information");
        reveal_strlit("Clear the screen and scrollback");
        reveal_strlit("Print arguments (quotes and backslash escapes supported)");
        reveal_strlit("Show kernel name; -a for version and architecture");
        reveal_strlit("Show time since kernel initialization");
        reveal_strlit("Show boot memory and current heap allocation payloads");
        reveal_strlit("Show the last 16 commands");
        reveal_strlit("Show the console user");
        reveal_strlit("Show the system name");
        reveal_strlit("Find the supported Intel I225-V Ethernet controller");
        reveal_strlit("Show Ethernet controller and link status");
        reveal_strlit("Fetch and show a plain HTTP page as text");
    }
    match index {
        0 => "Show commands and keyboard shortcuts",
        1 => "Show the CrabOS logo and live system information",
        2 => "Clear the screen and scrollback",
        3 => "Print arguments (quotes and backslash escapes supported)",
        4 => "Show kernel name; -a for version and architecture",
        5 => "Show time since kernel initialization",
        6 => "Show boot memory and current heap allocation payloads",
        7 => "Show the last 16 commands",
        8 => "Show the console user",
        9 => "Show the system name",
        10 => "Find the supported Intel I225-V Ethernet controller",
        11 => "Show Ethernet controller and link status",
        _ => "Fetch and show a plain HTTP page as text",
    }
}

/// The first of the first `n` commands that has the given name.
pub open spec fn command_at(text: Seq<char>, n: int) -> Option<int>
    decreases n,
{
    if n <= 0 {
        None
    } else {
        match command_at(text, n - 1) {
            Some(index) => Some(index),
            None => if command_name(n - 1) == text {
                Some(n - 1)
            } else {
                None
            },
        }
    }
}

pub open spec fn is_command(text: Seq<char>) -> bool {
    command_at(text, 13) is Some
}

pub fn find_command(text: &str) -> (index: Option<usize>)
    ensures
        match command_at(text@, 13) {
            Some(i) => index == Some(i as usize) && 0 <= i < 13 && command_name(i) == text@,
            None => index is None,
        },
{
    let mut i: usize = 0;
    while i < COMMANDS
        invariant
            i <= 13,
            command_at(text@, i as int) is None,
        decreases 13 - i,
    {
        if same(name_of(i), text) {
            proof {
                lemma_command_found(text@, i as int, 13);
            }
            return Some(i);
        }
        i += 1;
    }
    None
}

proof fn lemma_command_found(text: Seq<char>, index: int, n: int)
    requires
        0 <= index < n,
        command_at(text, index) is None,
        command_name(index) == text,
    ensures
        command_at(text, n) == Some(index),
    decreases n,
{
    if index + 1 < n {
        lemma_command_found(text, index, n - 1);
    }
}

/// What the shell needs from outside to answer a command.
pub enum Asked {
    Devices,
    Network,
    Page(Seq<char>),
}

/// What the shell asks its surroundings for.
pub enum Request {
    /// Search the PCI bus.
    Devices,
    /// Look at the network interface.
    Network,
    /// Fetch the page of a URL.
    Page(String),
}

pub open spec fn asked(request: Option<Request>) -> Option<Asked> {
    match request {
        None => None,
        Some(Request::Devices) => Some(Asked::Devices),
        Some(Request::Network) => Some(Asked::Network),
        Some(Request::Page(url)) => Some(Asked::Page(url@)),
    }
}

/// Whether a command is only asked what it is for.
pub open spec fn asks_help(args: Seq<Seq<u8>>) -> bool {
    args.len() == 2 && chars(args[1]) == "--help"@ && is_command(chars(args[0]))
}

/// What a command line asks for.
pub open spec fn asks(args: Seq<Seq<u8>>) -> Option<Asked> {
    let command = chars(args[0]);
    if args.len() == 0 || asks_help(args) {
        None
    } else if command == "browse"@ {
        if args.len() == 2 && url_of(chars(args[1])) is Ok {
            Some(Asked::Page(chars(args[1])))
        } else {
            None
        }
    } else if command == "lspci"@ && args.len() == 1 {
        Some(Asked::Devices)
    } else if command == "net"@ && args.len() == 1 {
        Some(Asked::Network)
    } else {
        None
    }
}

/// After `n` of the arguments, the command's name not counted, were printed
/// with a space between them.
pub open spec fn print_echo(s: Screen, args: Seq<Seq<u8>>, n: int) -> Screen
    decreases n,
{
    if n <= 0 {
        s
    } else {
        let before = print_echo(s, args, n - 1);
        let start = if n > 1 {
            before.print(" "@)
        } else {
            before
        };
        start.print(chars(args[n]))
    }
}

pub open spec fn print_uname(s: Screen, args: Seq<Seq<u8>>) -> Screen {
    if args.len() == 1 {
        s.print("CrabOS\n"@)
    } else if args.len() == 2 && chars(args[1]) == "-a"@ {
        s.print("CrabOS crabos "@).print(VERSION@).print(" x86_64\n"@)
    } else {
        s.print("usage: uname [-a]\n"@)
    }
}

pub open spec fn print_commands(s: Screen, n: int) -> Screen
    decreases n,
{
    if n <= 0 {
        s
    } else {
        let name = command_name(n - 1);
        print_commands(s, n - 1).print("  "@).print(name).print(spaces(10 - name.len())).print(
            " "@,
        ).print(command_about(n - 1)).print("\n"@)
    }
}

pub open spec fn print_help(s: Screen) -> Screen {
    print_commands(s, 13).print(
        "\nEditing: Left/Right, Home/End, Backspace/Delete, Tab completion\n"@,
    ).print("History: Up/Down or Ctrl+P/N; scrollback: PageUp/PageDown\n"@).print(
        "Ctrl+A/E: start/end; Ctrl+U/K: erase to start/end; Ctrl+W: word\n"@,
    ).print("Ctrl+C: close terminal; Ctrl+Q: open terminal\n"@).print(
        "Ctrl+L: clear and redraw; Ctrl+D: delete at cursor\n"@,
    ).print("US keyboard, ASCII input, 256 bytes/line, 16 history entries.\n"@).print(
        "Built-in commands only; no filesystem or external programs yet.\n"@,
    )
}

pub open spec fn print_uptime(s: Screen, facts: Facts) -> Screen {
    print_duration(s.print("up "@), facts.uptime_seconds).print("\n"@)
}

pub open spec fn print_mem(s: Screen, info: SystemInfo, facts: Facts) -> Screen {
    s.print("Boot-usable physical RAM: "@).print(decimal((info.usable_memory / 1024) as nat)).print(
        " KiB\n"@,
    ).print("Kernel heap capacity:     "@).print(decimal((facts.heap_size / 1024) as nat)).print(
        " KiB\n"@,
    ).print("Live allocation payload:  "@).print(decimal(facts.requested_bytes as nat)).print(
        " bytes\n"@,
    ).print("Payload excludes allocator metadata, rounding and cached blocks.\n"@).print(
        "Boot-usable RAM is not a measurement of current free memory.\n"@,
    )
}

pub open spec fn print_history(s: Screen, entries: Seq<LineText>, n: int) -> Screen
    decreases n,
{
    if n <= 0 {
        s
    } else {
        let count = decimal(n as nat);
        print_history(s, entries, n - 1).print(spaces(3 - count.len())).print(count).print(
            "  "@,
        ).print(chars(entries[n - 1].text)).print("\n"@)
    }
}

/// What a page is refused with before it is asked for.
pub open spec fn print_browse(s: Screen, args: Seq<Seq<u8>>) -> Screen {
    if args.len() != 2 {
        s.print("usage: browse http://host/path\n"@)
    } else {
        match url_of(chars(args[1])) {
            Ok(_) => s,
            Err(fault) => s.print("browse: "@).print(fault.message()).print("\n"@),
        }
    }
}

/// What a command without arguments prints.
pub open spec fn print_plain(
    s: Screen,
    command: Seq<char>,
    info: SystemInfo,
    facts: Facts,
    entries: Seq<LineText>,
) -> Screen {
    if command == "help"@ {
        print_help(s)
    } else if command == "fastfetch"@ {
        info.print_fastfetch(s, facts)
    } else if command == "clear"@ {
        s.cleared()
    } else if command == "uptime"@ {
        print_uptime(s, facts)
    } else if command == "mem"@ {
        print_mem(s, info, facts)
    } else if command == "history"@ {
        print_history(s, entries, entries.len() as int)
    } else if command == "whoami"@ {
        s.print("shaolin\n"@)
    } else if command == "hostname"@ {
        s.print("crabos\n"@)
    } else {
        s
    }
}

/// What a command line prints at once.
pub open spec fn respond(
    s: Screen,
    args: Seq<Seq<u8>>,
    info: SystemInfo,
    facts: Facts,
    entries: Seq<LineText>,
) -> Screen {
    let command = chars(args[0]);
    if args.len() == 0 {
        s
    } else if asks_help(args) {
        s.print(command).print(": "@).print(command_about(command_at(command, 13)->0)).print("\n"@)
    } else if command == "echo"@ {
        print_echo(s, args, args.len() - 1).print("\n"@)
    } else if command == "uname"@ {
        print_uname(s, args)
    } else if command == "fastfetch"@ && args.len() == 2 && chars(args[1]) == "--version"@ {
        s.print("CrabOS native fastfetch "@).print(VERSION@).print(" (not the upstream program)\n"@)
    } else if command == "browse"@ {
        print_browse(s, args)
    } else if !is_command(command) {
        s.print("crabsh: "@).print(command).print(": command not found. Try 'help'.\n"@)
    } else if args.len() > 1 {
        s.print("usage: "@).print(command).print(" (no arguments)\n"@)
    } else {
        print_plain(s, command, info, facts, entries)
    }
}

fn write_echo(args: &Arguments, writer: &mut Writer)
    requires
        args.wf(),
        args.len >= 1,
        old(writer)@.room(33000),
    ensures
        final(writer)@ == print_echo(old(writer)@, args@, args@.len() - 1).print("\n"@),
        advances(old(writer)@, final(writer)@, 33000),
{
    proof {
        reveal_strlit(" ");
        reveal_strlit("\n");
    }
    let mut index: usize = 1;
    while index < args.len
        invariant
            1 <= index <= args.len <= 32,
            args.wf(),
            " "@.len() == 1,
            old(writer)@.room(33000),
            writer@ == print_echo(old(writer)@, args@, index - 1),
            advances(old(writer)@, writer@, 1028 * (index - 1)),
        decreases args.len - index,
    {
        if index > 1 {
            writer.write_str(" ");
        }
        let text: &str = args.get(index);
        assert(text@.len() <= 256);
        writer.write_str(text);
        index += 1;
    }
    writer.write_str("\n");
}

fn write_uname(args: &Arguments, writer: &mut Writer)
    requires
        args.wf(),
        args.len >= 1,
        old(writer)@.room(200),
    ensures
        final(writer)@ == print_uname(old(writer)@, args@),
        advances(old(writer)@, final(writer)@, 200),
{
    proof {
        reveal_strlit("CrabOS\n");
        reveal_strlit("CrabOS crabos ");
        reveal_strlit("0.1.0");
        reveal_strlit(" x86_64\n");
        reveal_strlit("usage: uname [-a]\n");
    }
    if args.len == 1 {
        writer.write_str("CrabOS\n");
    } else if args.len == 2 && same(args.get(1), "-a") {
        writer.write_str("CrabOS crabos ");
        writer.write_str(VERSION);
        writer.write_str(" x86_64\n");
    } else {
        writer.write_str("usage: uname [-a]\n");
    }
}

fn write_commands(writer: &mut Writer)
    requires
        old(writer)@.room(4160),
    ensures
        final(writer)@ == print_commands(old(writer)@, 13),
        advances(old(writer)@, final(writer)@, 4160),
{
    proof {
        reveal_strlit("  ");
        reveal_strlit(" ");
        reveal_strlit("\n");
    }
    let mut index: usize = 0;
    while index < COMMANDS
        invariant
            index <= 13,
            "  "@.len() == 2,
            " "@.len() == 1,
            "\n"@.len() == 1,
            old(writer)@.room(4160),
            writer@ == print_commands(old(writer)@, index as int),
            advances(old(writer)@, writer@, 320 * index),
        decreases 13 - index,
    {
        let name: &str = name_of(index);
        let len: usize = name.unicode_len();
        writer.write_str("  ");
        writer.write_str(name);
        writer.write_spaces(10 - len);
        writer.write_str(" ");
        writer.write_str(about_of(index));
        writer.write_str("\n");
        index += 1;
    }
}

fn write_help(writer: &mut Writer)
    requires
        old(writer)@.room(7000),
    ensures
        final(writer)@ == print_help(old(writer)@),
        advances(old(writer)@, final(writer)@, 7000),
{
    proof {
        reveal_strlit("\nEditing: Left/Right, Home/End, Backspace/Delete, Tab completion\n");
        reveal_strlit("History: Up/Down or Ctrl+P/N; scrollback: PageUp/PageDown\n");
        reveal_strlit("Ctrl+A/E: start/end; Ctrl+U/K: erase to start/end; Ctrl+W: word\n");
        reveal_strlit("Ctrl+C: close terminal; Ctrl+Q: open terminal\n");
        reveal_strlit("Ctrl+L: clear and redraw; Ctrl+D: delete at cursor\n");
        reveal_strlit("US keyboard, ASCII input, 256 bytes/line, 16 history entries.\n");
        reveal_strlit("Built-in commands only; no filesystem or external programs yet.\n");
    }
    write_commands(writer);
    writer.write_str("\nEditing: Left/Right, Home/End, Backspace/Delete, Tab completion\n");
    writer.write_str("History: Up/Down or Ctrl+P/N; scrollback: PageUp/PageDown\n");
    writer.write_str("Ctrl+A/E: start/end; Ctrl+U/K: erase to start/end; Ctrl+W: word\n");
    writer.write_str("Ctrl+C: close terminal; Ctrl+Q: open terminal\n");
    writer.write_str("Ctrl+L: clear and redraw; Ctrl+D: delete at cursor\n");
    writer.write_str("US keyboard, ASCII input, 256 bytes/line, 16 history entries.\n");
    writer.write_str("Built-in commands only; no filesystem or external programs yet.\n");
}

fn write_uptime(facts: &Facts, writer: &mut Writer)
    requires
        old(writer)@.room(300),
    ensures
        final(writer)@ == print_uptime(old(writer)@, *facts),
        advances(old(writer)@, final(writer)@, 300),
{
    proof {
        reveal_strlit("up ");
        reveal_strlit("\n");
    }
    writer.write_str("up ");
    write_duration(writer, facts.uptime_seconds);
    writer.write_str("\n");
}

fn write_mem(info: &SystemInfo, facts: &Facts, writer: &mut Writer)
    requires
        old(writer)@.room(1200),
    ensures
        final(writer)@ == print_mem(old(writer)@, *info, *facts),
        advances(old(writer)@, final(writer)@, 1200),
{
    proof {
        reveal_strlit("Boot-usable physical RAM: ");
        reveal_strlit("Kernel heap capacity:     ");
        reveal_strlit("Live allocation payload:  ");
        reveal_strlit(" KiB\n");
        reveal_strlit(" bytes\n");
        reveal_strlit("Payload excludes allocator metadata, rounding and cached blocks.\n");
        reveal_strlit("Boot-usable RAM is not a measurement of current free memory.\n");
    }
    writer.write_str("Boot-usable physical RAM: ");
    writer.write_decimal(info.usable_memory / 1024);
    writer.write_str(" KiB\n");
    writer.write_str("Kernel heap capacity:     ");
    writer.write_decimal(facts.heap_size / 1024);
    writer.write_str(" KiB\n");
    writer.write_str("Live allocation payload:  ");
    writer.write_decimal(facts.requested_bytes);
    writer.write_str(" bytes\n");
    writer.write_str("Payload excludes allocator metadata, rounding and cached blocks.\n");
    writer.write_str("Boot-usable RAM is not a measurement of current free memory.\n");
}

fn write_history(history: &History, writer: &mut Writer)
    requires
        history.wf(),
        old(writer)@.room(18000),
    ensures
        final(writer)@ == print_history(
            old(writer)@,
            history@.entries,
            history@.entries.len() as int,
        ),
        advances(old(writer)@, final(writer)@, 18000),
{
    proof {
        reveal_strlit("  ");
        reveal_strlit("\n");
    }
    let mut index: usize = 0;
    while index < history.len
        invariant
            index <= history.len <= 16,
            history.wf(),
            "  "@.len() == 2,
            "\n"@.len() == 1,
            old(writer)@.room(18000),
            writer@ == print_history(old(writer)@, history@.entries, index as int),
            advances(old(writer)@, writer@, 1124 * index),
        decreases history.len - index,
    {
        let line: Line = history.get(index);
        index += 1;
        let ghost count = decimal(index as nat);
        proof {
            reveal_with_fuel(decimal, 3);
            assert(count.len() == if index < 10 { 1 } else { 2int });
        }
        if index < 10 {
            writer.write_spaces(2);
        } else {
            writer.write_spaces(1);
        }
        writer.write_decimal(index as u64);
        writer.write_str("  ");
        writer.write_str(line.as_str());
        writer.write_str("\n");
    }
}

fn write_plain(
    command: &str,
    info: &SystemInfo,
    facts: &Facts,
    history: &History,
    writer: &mut Writer,
)
    requires
        history.wf(),
        old(writer)@.room(18000),
    ensures
        final(writer)@ == print_plain(
            old(writer)@,
            command@,
            *info,
            *facts,
            history@.entries,
        ),
        advances(old(writer)@, final(writer)@, 18000),
{
    proof {
        reveal_strlit("shaolin\n");
        reveal_strlit("crabos\n");
    }
    if same(command, "help") {
        write_help(writer);
    } else if same(command, "fastfetch") {
        info.fastfetch(facts, writer);
    } else if same(command, "clear") {
        writer.clear();
    } else if same(command, "uptime") {
        write_uptime(facts, writer);
    } else if same(command, "mem") {
        write_mem(info, facts, writer);
    } else if same(command, "history") {
        write_history(history, writer);
    } else if same(command, "whoami") {
        writer.write_str("shaolin\n");
    } else if same(command, "hostname") {
        writer.write_str("crabos\n");
    }
}

/// Run a command, and say what it needs from outside to be answered.
pub fn run(
    args: &Arguments,
    info: &SystemInfo,
    facts: &Facts,
    history: &History,
    writer: &mut Writer,
) -> (request: Option<Request>)
    requires
        args.wf(),
        history.wf(),
        old(writer)@.room(33000),
    ensures
        final(writer)@ == respond(old(writer)@, args@, *info, *facts, history@.entries),
        asked(request) == asks(args@),
        advances(old(writer)@, final(writer)@, 33000),
{
    if args.len == 0 {
        return None;
    }
    proof {
        lemma_requests_are_commands();
    }
    let command: &str = args.get(0);
    assert(command@.len() <= 256);
    if args.len == 2 && same(args.get(1), "--help") {
        if let Some(index) = find_command(command) {
            proof {
                reveal_strlit(": ");
                reveal_strlit("\n");
            }
            writer.write_str(command);
            writer.write_str(": ");
            writer.write_str(about_of(index));
            writer.write_str("\n");
            return None;
        }
    }
    if same(command, "echo") {
        write_echo(args, writer);
        return None;
    }
    if same(command, "uname") {
        write_uname(args, writer);
        return None;
    }
    if same(command, "browse") {
        return run_browse(args, writer);
    }
    run_named(command, args, info, facts, history, writer)
}

fn run_browse(args: &Arguments, writer: &mut Writer) -> (request: Option<Request>)
    requires
        args.wf(),
        args.len >= 1,
        chars(args@[0]) == "browse"@,
        !asks_help(args@),
        old(writer)@.room(300),
    ensures
        final(writer)@ == print_browse(old(writer)@, args@),
        asked(request) == asks(args@),
        advances(old(writer)@, final(writer)@, 300),
{
    proof {
        reveal_strlit("usage: browse http://host/path\n");
        reveal_strlit("browse: ");
        reveal_strlit("use an http:// URL");
        reveal_strlit("invalid HTTP port");
        reveal_strlit("invalid HTTP URL");
        reveal_strlit("\n");
    }
    if args.len != 2 {
        writer.write_str("usage: browse http://host/path\n");
        return None;
    }
    let text: &str = args.get(1);
    match Url::parse(text) {
        Ok(_) => Some(Request::Page(text.to_owned())),
        Err(message) => {
            writer.write_str("browse: ");
            writer.write_str(message);
            writer.write_str("\n");
            None
        },
    }
}

fn run_named(
    command: &str,
    args: &Arguments,
    info: &SystemInfo,
    facts: &Facts,
    history: &History,
    writer: &mut Writer,
) -> (request: Option<Request>)
    requires
        args.wf(),
        args.len >= 1,
        history.wf(),
        command@ == chars(args@[0]),
        command@.len() <= 256,
        command@ != "echo"@,
        command@ != "uname"@,
        command@ != "browse"@,
        !asks_help(args@),
        old(writer)@.room(18000),
    ensures
        final(writer)@ == respond(old(writer)@, args@, *info, *facts, history@.entries),
        asked(request) == asks(args@),
        advances(old(writer)@, final(writer)@, 18000),
{
    proof {
        reveal_strlit("CrabOS native fastfetch ");
        reveal_strlit("0.1.0");
        reveal_strlit(" (not the upstream program)\n");
        reveal_strlit("crabsh: ");
        reveal_strlit(": command not found. Try 'help'.\n");
        reveal_strlit("usage: ");
        reveal_strlit(" (no arguments)\n");
        lemma_requests_are_commands();
    }
    if same(command, "fastfetch") && args.len == 2 && same(args.get(1), "--version") {
        assert(command@ != "lspci"@ && command@ != "net"@);
        writer.write_str("CrabOS native fastfetch ");
        writer.write_str(VERSION);
        writer.write_str(" (not the upstream program)\n");
        return None;
    }
    if find_command(command).is_none() {
        writer.write_str("crabsh: ");
        writer.write_str(command);
        writer.write_str(": command not found. Try 'help'.\n");
        return None;
    }
    if args.len > 1 {
        writer.write_str("usage: ");
        writer.write_str(command);
        writer.write_str(" (no arguments)\n");
        return None;
    }
    write_plain(command, info, facts, history, writer);
    if same(command, "lspci") {
        Some(Request::Devices)
    } else if same(command, "net") {
        Some(Request::Network)
    } else {
        None
    }
}

proof fn lemma_requests_are_commands()
    ensures
        is_command("lspci"@),
        is_command("net"@),
        forall|i: int|
            0 <= i < 13 && i != 10 && i != 11 && i != 12 ==> {
                &&& #[trigger] command_name(i) != "lspci"@
                &&& command_name(i) != "net"@
                &&& command_name(i) != "browse"@
            },
        command_name(1) == "fastfetch"@,
        command_name(3) == "echo"@,
        command_name(4) == "uname"@,
{
    reveal_with_fuel(command_at, 14);
    reveal_strlit("help");
    reveal_strlit("fastfetch");
    reveal_strlit("clear");
    reveal_strlit("echo");
    reveal_strlit("uname");
    reveal_strlit("uptime");
    reveal_strlit("mem");
    reveal_strlit("history");
    reveal_strlit("whoami");
    reveal_strlit("hostname");
    reveal_strlit("lspci");
    reveal_strlit("net");
    reveal_strlit("browse");
    assert forall|i: int| 0 <= i < 13 && i != 10 && i != 11 && i != 12 implies {
        &&& #[trigger] command_name(i) != "lspci"@
        &&& command_name(i) != "net"@
        &&& command_name(i) != "browse"@
    } by {
        let first = command_name(i)[0];
        assert(first != "lspci"@[0] && first != "net"@[0] && first != "browse"@[0]);
    }
    assert(command_name(10) == "lspci"@);
    assert(command_name(11) == "net"@);
}

} // verus!
