//! What commands print, and what they ask for.
use vstd::prelude::*;

use crate::net::web::url_of;
use crate::shell::commands::{
    asks, command_about, command_at, command_name, is_command, print_commands, print_echo,
    print_history, respond, Asked,
};
use crate::shell::line::LineText;
use crate::system::{print_duration, Facts, SystemInfo};
use crate::text::{chars, decimal, spaces};
use crate::vga_buffer::{lemma_print_concat, Screen};

verus! {

/// Arguments that are a command and what follows it.
pub open spec fn is_call(args: Seq<Seq<u8>>, command: Seq<char>, len: int) -> bool {
    args.len() == len && len > 0 && chars(args[0]) == command
}

/// The thirteen commands are found by their names.
pub proof fn lemma_names()
    ensures
        command_at("help"@, 13) == Some(0int),
        command_at("fastfetch"@, 13) == Some(1int),
        command_at("clear"@, 13) == Some(2int),
        command_at("echo"@, 13) == Some(3int),
        command_at("uname"@, 13) == Some(4int),
        command_at("uptime"@, 13) == Some(5int),
        command_at("mem"@, 13) == Some(6int),
        command_at("history"@, 13) == Some(7int),
        command_at("whoami"@, 13) == Some(8int),
        command_at("hostname"@, 13) == Some(9int),
        command_at("lspci"@, 13) == Some(10int),
        command_at("net"@, 13) == Some(11int),
        command_at("browse"@, 13) == Some(12int),
{
    reveal_with_fuel(command_at, 14);
    reveal_strlit("help");
    reveal_strlit("fastfetch");
    reveal_strlit("clear");
    reveal_strlit("echo");
    reveal_strlit("uname");
    reveal_strlit("uptime");
    reveal_strlit("mem");
    reveal_strlit("history");
    reveal_strlit("whoami");
    reveal_strlit("hostname");
    reveal_strlit("lspci");
    reveal_strlit("net");
    reveal_strlit("browse");
    assert("help"@[0] == 'h' && "help"@[1] == 'e' && "history"@[1] == 'i' && "hostname"@[1] == 'o'
        && "fastfetch"@[0] == 'f' && "clear"@[0] == 'c' && "echo"@[0] == 'e' && "uname"@[1] == 'n'
        && "uptime"@[1] == 'p' && "mem"@[0] == 'm' && "whoami"@[0] == 'w' && "lspci"@[0] == 'l'
        && "net"@[0] == 'n' && "browse"@[0] == 'b' && "history"@[0] == 'h' && "hostname"@[0] == 'h'
        && "uname"@[0] == 'u' && "uptime"@[0] == 'u');
}

proof fn lemma_history_prefix(s: Screen, entries: Seq<LineText>, line: LineText, n: int)
    requires
        n <= entries.len(),
    ensures
        print_history(s, entries.push(line), n) == print_history(s, entries, n),
    decreases n,
{
    if n > 0 {
        lemma_history_prefix(s, entries, line, n - 1);
    }
}

/// What the history command prints grows at its end: one more remembered line
/// adds its number, right-aligned in three columns, two spaces, its text and a
/// line feed, and of no line it prints nothing. So the oldest comes first.
pub proof fn lemma_history_grows_at_its_end(
    s: Screen,
    args: Seq<Seq<u8>>,
    info: SystemInfo,
    facts: Facts,
    entries: Seq<LineText>,
    line: LineText,
)
    requires
        is_call(args, "history"@, 1),
    ensures
        respond(s, args, info, facts, Seq::empty()) == s,
        ({
            let number = decimal(entries.len() + 1);
            respond(s, args, info, facts, entries.push(line)) == respond(
                s,
                args,
                info,
                facts,
                entries,
            ).print(
                Seq::new(
                    (if number.len() < 3 {
                        3 - number.len()
                    } else {
                        0int
                    }) as nat,
                    |i: int| ' ',
                ) + number + seq![' ', ' '] + chars(line.text) + seq!['\n'],
            )
        }),
{
    lemma_names();
    lemma_only(args);
    let n = entries.len() as int;
    let number = decimal(entries.len() + 1);
    lemma_history_prefix(s, entries, line, n);
    let before = print_history(s, entries, n);
    reveal_strlit("  ");
    reveal_strlit("\n");
    assert("  "@ =~= seq![' ', ' ']);
    assert("\n"@ =~= seq!['\n']);
    assert(entries.push(line)[n] == line);
    let pad = Seq::new(
        (if number.len() < 3 {
            3 - number.len()
        } else {
            0int
        }) as nat,
        |i: int| ' ',
    );
    assert(spaces(3 - number.len()) =~= pad);
    lemma_five_parts(before, pad, number, "  "@, chars(line.text), "\n"@);
}

proof fn lemma_five_parts(
    s: Screen,
    a: Seq<char>,
    b: Seq<char>,
    c: Seq<char>,
    d: Seq<char>,
    e: Seq<char>,
)
    ensures
        s.print(a).print(b).print(c).print(d).print(e) == s.print(a + b + c + d + e),
{
    lemma_print_concat(s, a, b);
    lemma_print_concat(s, a + b, c);
    lemma_print_concat(s, a + b + c, d);
    lemma_print_concat(s, a + b + c + d, e);
}

/// A command named without arguments is none of those that take any.
proof fn lemma_only(args: Seq<Seq<u8>>)
    requires
        is_call(args, "history"@, 1) || is_call(args, "mem"@, 1) || is_call(args, "uptime"@, 1)
            || is_call(args, "whoami"@, 1) || is_call(args, "hostname"@, 1) || is_call(
            args,
            "clear"@,
            1,
        ) || is_call(args, "help"@, 1) || is_call(args, "lspci"@, 1) || is_call(args, "net"@, 1),
    ensures
        chars(args[0]) != "echo"@,
        chars(args[0]) != "uname"@,
        chars(args[0]) != "fastfetch"@,
        chars(args[0]) != "browse"@,
        is_call(args, "history"@, 1) ==> chars(args[0]) != "help"@ && chars(args[0]) != "clear"@
            && chars(args[0]) != "uptime"@ && chars(args[0]) != "mem"@,
        is_call(args, "mem"@, 1) ==> chars(args[0]) != "help"@ && chars(args[0]) != "clear"@
            && chars(args[0]) != "uptime"@,
        is_call(args, "uptime"@, 1) ==> chars(args[0]) != "help"@ && chars(args[0]) != "clear"@,
        is_call(args, "clear"@, 1) ==> chars(args[0]) != "help"@,
        is_call(args, "whoami"@, 1) || is_call(args, "hostname"@, 1) || is_call(args, "lspci"@, 1)
            || is_call(args, "net"@, 1) ==> chars(args[0]) != "help"@ && chars(args[0]) != "clear"@
            && chars(args[0]) != "uptime"@ && chars(args[0]) != "mem"@ && chars(args[0])
            != "history"@,
        is_call(args, "hostname"@, 1) || is_call(args, "lspci"@, 1) || is_call(args, "net"@, 1)
            ==> chars(args[0]) != "whoami"@,
        is_call(args, "lspci"@, 1) || is_call(args, "net"@, 1) ==> chars(args[0]) != "hostname"@,
        is_call(args, "net"@, 1) ==> chars(args[0]) != "lspci"@,
{
    lemma_names();
}

/// Arguments with a space between each two.
pub open spec fn joined(words: Seq<Seq<u8>>) -> Seq<char>
    decreases words.len(),
{
    if words.len() == 0 {
        Seq::empty()
    } else if words.len() == 1 {
        chars(words[0])
    } else {
        joined(words.drop_last()).push(' ') + chars(words.last())
    }
}

proof fn lemma_echo(s: Screen, args: Seq<Seq<u8>>, n: int)
    requires
        0 <= n < args.len(),
    ensures
        print_echo(s, args, n) == s.print(joined(args.subrange(1, n + 1))),
    decreases n,
{
    broadcast use lemma_print_concat;

    let words = args.subrange(1, n + 1);
    if n == 0 {
        assert(words =~= Seq::<Seq<u8>>::empty());
    } else {
        lemma_echo(s, args, n - 1);
        assert(words.drop_last() =~= args.subrange(1, n));
        assert(words.last() == args[n]);
        if n == 1 {
            assert(words[0] == args[1]);
            assert(args.subrange(1, 1) =~= Seq::<Seq<u8>>::empty());
            assert(joined(args.subrange(1, 1)) == Seq::<char>::empty());
        } else {
            reveal_strlit(" ");
            assert(" "@ =~= seq![' ']);
            let before = joined(words.drop_last());
            assert(before + seq![' '] =~= before.push(' '));
        }
    }
}

/// The echo command prints its arguments with a space between them, and a line
/// feed, unless it is only asked what it is for.
pub proof fn lemma_echo_repeats_arguments(
    s: Screen,
    args: Seq<Seq<u8>>,
    info: SystemInfo,
    facts: Facts,
    entries: Seq<LineText>,
)
    requires
        args.len() > 0,
        chars(args[0]) == "echo"@,
        args.len() != 2 || chars(args[1]) != "--help"@,
    ensures
        respond(s, args, info, facts, entries) == s.print(joined(args.skip(1)).push('\n')),
        asks(args) is None,
{
    broadcast use lemma_print_concat;

    lemma_names();
    lemma_echo(s, args, args.len() - 1);
    assert(args.subrange(1, args.len() as int) =~= args.skip(1));
    reveal_strlit("\n");
    assert("\n"@ =~= seq!['\n']);
    let text = joined(args.skip(1));
    assert(text + seq!['\n'] =~= text.push('\n'));
}

/// A duration is printed as hours, minutes and seconds that add up to it, with
/// fewer than sixty minutes and seconds.
pub proof fn lemma_durations_add_up(s: Screen, hours: nat, minutes: nat, seconds: nat, total: u64)
    requires
        total == 3600 * hours + 60 * minutes + seconds,
        minutes < 60,
        seconds < 60,
    ensures
        print_duration(s, total) == s.print(
            decimal(hours) + "h "@ + decimal(minutes) + "m "@ + decimal(seconds) + "s"@,
        ),
{
    broadcast use lemma_print_concat;

    assert(total / 3600 == hours);
    assert(total / 60 % 60 == minutes);
    assert(total % 60 == seconds);
}

/// The uptime command prints the time since the kernel started.
pub proof fn lemma_uptime_printed(
    s: Screen,
    args: Seq<Seq<u8>>,
    info: SystemInfo,
    facts: Facts,
    entries: Seq<LineText>,
    hours: nat,
    minutes: nat,
    seconds: nat,
)
    requires
        is_call(args, "uptime"@, 1),
        facts.uptime_seconds == 3600 * hours + 60 * minutes + seconds,
        minutes < 60,
        seconds < 60,
    ensures
        respond(s, args, info, facts, entries) == s.print(
            "up "@ + (decimal(hours) + "h "@ + decimal(minutes) + "m "@ + decimal(seconds) + "s"@)
                + "\n"@,
        ),
{
    lemma_names();
    lemma_only(args);
    let start = s.print("up "@);
    lemma_durations_add_up(start, hours, minutes, seconds, facts.uptime_seconds);
    let time = decimal(hours) + "h "@ + decimal(minutes) + "m "@ + decimal(seconds) + "s"@;
    lemma_print_concat(s, "up "@, time);
    lemma_print_concat(s, "up "@ + time, "\n"@);
}

/// The mem command prints usable memory and heap in whole units of 1024 bytes,
/// and what is allocated in bytes.
pub proof fn lemma_memory_printed(
    s: Screen,
    args: Seq<Seq<u8>>,
    info: SystemInfo,
    facts: Facts,
    entries: Seq<LineText>,
    usable: nat,
    heap: nat,
)
    requires
        is_call(args, "mem"@, 1),
        1024 * usable <= info.usable_memory < 1024 * usable + 1024,
        1024 * heap <= facts.heap_size < 1024 * heap + 1024,
    ensures
        respond(s, args, info, facts, entries) == s.print(
            "Boot-usable physical RAM: "@ + decimal(usable) + " KiB\n"@
                + "Kernel heap capacity:     "@ + decimal(heap) + " KiB\n"@
                + "Live allocation payload:  "@ + decimal(facts.requested_bytes as nat)
                + " bytes\n"@
                + "Payload excludes allocator metadata, rounding and cached blocks.\n"@
                + "Boot-usable RAM is not a measurement of current free memory.\n"@,
        ),
{
    lemma_names();
    lemma_only(args);
    assert(info.usable_memory / 1024 == usable);
    assert(facts.heap_size / 1024 == heap);
    let a = "Boot-usable physical RAM: "@ + decimal(usable) + " KiB\n"@
        + "Kernel heap capacity:     "@ + decimal(heap);
    let b = " KiB\n"@;
    let c = "Live allocation payload:  "@;
    let d = decimal(facts.requested_bytes as nat);
    let e = " bytes\n"@;
    let f = "Payload excludes allocator metadata, rounding and cached blocks.\n"@;
    let g = "Boot-usable RAM is not a measurement of current free memory.\n"@;
    lemma_five_parts(
        s,
        "Boot-usable physical RAM: "@,
        decimal(usable),
        " KiB\n"@,
        "Kernel heap capacity:     "@,
        decimal(heap),
    );
    lemma_five_parts(s, a, b, c, d, e);
    lemma_print_concat(s, a + b + c + d + e, f);
    lemma_print_concat(s, a + b + c + d + e + f, g);
}

/// Commands that only tell a name print it whatever the system is like; the one
/// that clears leaves an empty screen.
pub proof fn lemma_names_printed(
    s: Screen,
    args: Seq<Seq<u8>>,
    info: SystemInfo,
    facts: Facts,
    entries: Seq<LineText>,
)
    ensures
        is_call(args, "whoami"@, 1) ==> respond(s, args, info, facts, entries) == s.print(
            "shaolin\n"@,
        ),
        is_call(args, "hostname"@, 1) ==> respond(s, args, info, facts, entries) == s.print(
            "crabos\n"@,
        ),
        is_call(args, "uname"@, 1) ==> respond(s, args, info, facts, entries) == s.print(
            "CrabOS\n"@,
        ),
        is_call(args, "uname"@, 2) && chars(args[1]) == "-a"@ ==> respond(
            s,
            args,
            info,
            facts,
            entries,
        ) == s.print("CrabOS crabos 0.1.0 x86_64\n"@),
        is_call(args, "uname"@, 2) && chars(args[1]) != "-a"@ && chars(args[1]) != "--help"@
            || args.len() > 2 && chars(args[0]) == "uname"@ ==> respond(
            s,
            args,
            info,
            facts,
            entries,
        ) == s.print("usage: uname [-a]\n"@),
        is_call(args, "fastfetch"@, 1) ==> respond(s, args, info, facts, entries)
            == info.print_fastfetch(s, facts),
        is_call(args, "fastfetch"@, 2) && chars(args[1]) == "--version"@ ==> respond(
            s,
            args,
            info,
            facts,
            entries,
        ) == s.print("CrabOS native fastfetch 0.1.0 (not the upstream program)\n"@),
        is_call(args, "clear"@, 1) ==> {
            let after = respond(s, args, info, facts, entries);
            &&& after.line == 0 && after.column == 0 && after.last == 0 && after.top == 0
            &&& after.columns == s.columns
            &&& forall|line: int, column: int|
                0 <= column < 80 ==> (#[trigger] after.row(line)[column]).ascii_character == 0x20
        },
{
    broadcast use lemma_print_concat;

    lemma_names();
    if is_call(args, "uname"@, 2) && chars(args[1]) == "-a"@ {
        reveal_strlit("-a");
        reveal_strlit("--help");
        reveal_strlit("CrabOS crabos ");
        reveal_strlit("0.1.0");
        reveal_strlit(" x86_64\n");
        reveal_strlit("CrabOS crabos 0.1.0 x86_64\n");
        assert("-a"@.len() != "--help"@.len());
        assert("CrabOS crabos "@ + "0.1.0"@ + " x86_64\n"@ =~= "CrabOS crabos 0.1.0 x86_64\n"@);
    }
    if is_call(args, "fastfetch"@, 2) && chars(args[1]) == "--version"@ {
        reveal_strlit("--version");
        reveal_strlit("--help");
        reveal_strlit("0.1.0");
        reveal_strlit("CrabOS native fastfetch ");
        reveal_strlit(" (not the upstream program)\n");
        reveal_strlit("CrabOS native fastfetch 0.1.0 (not the upstream program)\n");
        assert("--version"@.len() != "--help"@.len());
        assert("CrabOS native fastfetch "@ + "0.1.0"@ + " (not the upstream program)\n"@
            =~= "CrabOS native fastfetch 0.1.0 (not the upstream program)\n"@);
    }
    if is_call(args, "whoami"@, 1) || is_call(args, "hostname"@, 1) || is_call(args, "clear"@, 1) {
        lemma_only(args);
    }
}

/// A first word that names none of the thirteen commands is called unknown and
/// asks for nothing; a command that takes no arguments refuses them.
pub proof fn lemma_misuse_refused(
    s: Screen,
    args: Seq<Seq<u8>>,
    info: SystemInfo,
    facts: Facts,
    entries: Seq<LineText>,
)
    requires
        args.len() > 0,
    ensures
        ({
            let command = chars(args[0]);
            let plain = command == "help"@ || command == "clear"@ || command == "uptime"@ || command
                == "mem"@ || command == "history"@ || command == "whoami"@ || command
                == "hostname"@ || command == "lspci"@ || command == "net"@;
            let more = command == "fastfetch"@ || command == "echo"@ || command == "uname"@
                || command == "browse"@;
            &&& !plain && !more ==> respond(s, args, info, facts, entries) == s.print(
                "crabsh: "@ + command + ": command not found. Try 'help'.\n"@,
            ) && asks(args) is None
            &&& plain && args.len() > 1 && !(args.len() == 2 && chars(args[1]) == "--help"@)
                ==> respond(s, args, info, facts, entries) == s.print(
                "usage: "@ + command + " (no arguments)\n"@,
            ) && asks(args) is None
            &&& is_command(command) == (plain || more)
        }),
{
    broadcast use lemma_print_concat;

    lemma_names();
    reveal_with_fuel(command_at, 14);
    let command = chars(args[0]);
    if is_command(command) {
        let index = command_at(command, 13)->0;
        lemma_command_named(command, 13);
        assert(command == command_name(index));
    }
}

proof fn lemma_command_named(text: Seq<char>, n: int)
    requires
        0 <= n <= 13,
    ensures
        command_at(text, n) matches Some(index) ==> 0 <= index < n && command_name(index) == text,
    decreases n,
{
    if n > 0 {
        lemma_command_named(text, n - 1);
    }
}

/// Only three commands need something from outside: one asks for the devices,
/// one for the network, and one for the page of its only argument where that is a
/// URL. They print nothing before it is there.
pub proof fn lemma_requests(
    s: Screen,
    args: Seq<Seq<u8>>,
    info: SystemInfo,
    facts: Facts,
    entries: Seq<LineText>,
)
    requires
        args.len() > 0,
    ensures
        is_call(args, "lspci"@, 1) ==> asks(args) == Some(Asked::Devices),
        is_call(args, "net"@, 1) ==> asks(args) == Some(Asked::Network),
        is_call(args, "browse"@, 2) && url_of(chars(args[1])) is Ok ==> asks(args) == Some(
            Asked::Page(chars(args[1])),
        ),
        asks(args) is Some ==> respond(s, args, info, facts, entries) == s,
        asks(args) is Some ==> is_call(args, "lspci"@, 1) || is_call(args, "net"@, 1) || is_call(
            args,
            "browse"@,
            2,
        ),
{
    lemma_names();
    if is_call(args, "browse"@, 2) && url_of(chars(args[1])) is Ok {
        reveal_strlit("--help");
        reveal_strlit("http://");
        assert("--help"@[0] == '-' && "http://"@[0] == 'h');
        assert(url_of("--help"@) is Err);
    }
    if is_call(args, "lspci"@, 1) || is_call(args, "net"@, 1) {
        lemma_only(args);
    }
}

/// The help command prints its list and then what the keys do.
pub proof fn lemma_help_printed(
    s: Screen,
    args: Seq<Seq<u8>>,
    info: SystemInfo,
    facts: Facts,
    entries: Seq<LineText>,
)
    requires
        is_call(args, "help"@, 1),
    ensures
        respond(s, args, info, facts, entries) == print_commands(s, 13).print(
            "\nEditing: Left/Right, Home/End, Backspace/Delete, Tab completion\n"@
                + "History: Up/Down or Ctrl+P/N; scrollback: PageUp/PageDown\n"@
                + "Ctrl+A/E: start/end; Ctrl+U/K: erase to start/end; Ctrl+W: word\n"@
                + "Ctrl+C: close terminal; Ctrl+Q: open terminal\n"@
                + "Ctrl+L: clear and redraw; Ctrl+D: delete at cursor\n"@
                + "US keyboard, ASCII input, 256 bytes/line, 16 history entries.\n"@
                + "Built-in commands only; no filesystem or external programs yet.\n"@,
        ),
{
    lemma_names();
    lemma_only(args);
    let list = print_commands(s, 13);
    let a = "\nEditing: Left/Right, Home/End, Backspace/Delete, Tab completion\n"@;
    let b = "History: Up/Down or Ctrl+P/N; scrollback: PageUp/PageDown\n"@;
    let c = "Ctrl+A/E: start/end; Ctrl+U/K: erase to start/end; Ctrl+W: word\n"@;
    let d = "Ctrl+C: close terminal; Ctrl+Q: open terminal\n"@;
    let e = "Ctrl+L: clear and redraw; Ctrl+D: delete at cursor\n"@;
    let f = "US keyboard, ASCII input, 256 bytes/line, 16 history entries.\n"@;
    let g = "Built-in commands only; no filesystem or external programs yet.\n"@;
    lemma_five_parts(list, a, b, c, d, e);
    lemma_print_concat(list, a + b + c + d + e, f);
    lemma_print_concat(list, a + b + c + d + e + f, g);
}

/// The help command lists each command in a line of its own: two spaces, its
/// name, spaces up to the fourteenth column and what it is for.
pub proof fn lemma_help_lists_commands(s: Screen, n: int)
    requires
        0 <= n < 13,
    ensures
        print_commands(s, n + 1) == print_commands(s, n).print(
            seq![' ', ' '] + command_name(n) + Seq::new(
                (11 - command_name(n).len()) as nat,
                |i: int| ' ',
            ) + command_about(n) + seq!['\n'],
        ),
        print_commands(s, 0) == s,
{
    broadcast use lemma_print_concat;

    crate::shell::commands::lemma_command_names(n);
    reveal_strlit("  ");
    reveal_strlit(" ");
    reveal_strlit("\n");
    let name = command_name(n);
    assert("  "@ =~= seq![' ', ' ']);
    assert("\n"@ =~= seq!['\n']);
    let gap = Seq::new((11 - name.len()) as nat, |i: int| ' ');
    assert(spaces(10 - name.len()) + " "@ =~= gap);
    let head = print_commands(s, n).print("  "@).print(name);
    assert(head.print(spaces(10 - name.len())).print(" "@) == head.print(gap));
}

} // verus!
