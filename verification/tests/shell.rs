use crab_os::pci::Address;
use crab_os::shell::answers::Answer;
use crab_os::shell::arguments::{Arguments, MAX_ARGS};
use crab_os::shell::commands::Request;
use crab_os::shell::history::{History, HISTORY_SIZE};
use crab_os::shell::line::{Line, MAX_INPUT};
use crab_os::shell::Shell;
use crab_os::system::{Cpuid, CpuidLeaf, Facts, SystemInfo};
use crab_os::vga_buffer::Writer;
use pc_keyboard::{DecodedKey, KeyCode};

fn info() -> SystemInfo {
    let empty = CpuidLeaf { eax: 0, ebx: 0, ecx: 0, edx: 0 };
    let base = CpuidLeaf { eax: 0, ebx: 0x756e_6547, ecx: 0x6c65_746e, edx: 0x4965_6e69 };
    SystemInfo::new(
        &[],
        &Cpuid { base, features: empty, extended: empty, brand: [empty, empty, empty] },
    )
}

fn facts() -> Facts {
    Facts { uptime_seconds: 3_725, heap_size: 100 * 1024, requested_bytes: 42 }
}

fn start() -> (Shell, Writer) {
    let mut writer = Writer::new();
    let shell = Shell::new(info(), &facts(), &mut writer);
    (shell, writer)
}

fn press(shell: &mut Shell, writer: &mut Writer, text: &str) -> Option<Request> {
    let mut request = None;
    for c in text.chars() {
        let asked = shell.handle_key(DecodedKey::Unicode(c), &facts(), writer);
        if asked.is_some() {
            request = asked;
        }
    }
    request
}

fn row(writer: &Writer, line: usize) -> String {
    let bytes: Vec<u8> = writer.lines[line % 128].iter().map(|cell| cell.ascii_character).collect();
    String::from_utf8_lossy(&bytes).trim_end().to_string()
}

/// The lines that a command printed, without its prompts.
fn output(command: &str) -> Vec<String> {
    let (mut shell, mut writer) = start();
    let first = writer.cursor.line;
    press(&mut shell, &mut writer, command);
    let request = press(&mut shell, &mut writer, "\n");
    assert!(request.is_none());
    (first + 1..writer.cursor.line).map(|line| row(&writer, line)).collect()
}

#[test]
fn editor_insertion_deletion_and_capacity() {
    let mut line = Line::new();
    for byte in b"echo ac" {
        assert!(line.insert(*byte));
    }
    line.cursor -= 1;
    line.insert(b'b');
    assert_eq!(line.as_str(), "echo abc");
    line.backspace();
    line.delete();
    assert_eq!(line.as_str(), "echo a");
    line.delete_word();
    assert_eq!(line.as_str(), "echo ");
    line.cursor = 0;
    line.backspace();
    assert_eq!(line.cursor, 0);
    line.cursor = line.len;
    while line.len < MAX_INPUT {
        assert!(line.insert(b'x'));
    }
    assert!(!line.insert(b'x'));
    assert!(line.overflow);
    assert!(!line.insert(0xff));
    line.backspace();
    assert!(!line.overflow);
}

#[test]
fn history_eviction_duplicates_and_draft_restore() {
    let mut history = History::new();
    for byte in b'a'..=b'z' {
        let mut line = Line::new();
        line.insert(byte);
        history.record(line);
        history.record(line);
    }
    assert_eq!(history.len, HISTORY_SIZE);
    assert_eq!(history.get(0).as_str(), "k");
    let mut draft = Line::new();
    draft.insert(b'?');
    assert_eq!(history.previous(draft).as_str(), "z");
    assert_eq!(history.previous(draft).as_str(), "y");
    assert_eq!(history.next(draft).as_str(), "z");
    assert_eq!(history.next(draft).as_str(), "?");
    assert!(history.browsing.is_none());
    let mut full_draft = Line::new();
    for _ in 0..=MAX_INPUT {
        full_draft.insert(b'x');
    }
    assert!(full_draft.overflow);
    assert!(!history.previous(full_draft).overflow);
    assert!(history.next(Line::new()).overflow);
}

#[test]
fn arguments_preserve_quotes_and_reject_incomplete_input() {
    let args = Arguments::parse(r#" echo "two words" '' a\ b 'x\y' "#).ok().unwrap();
    assert_eq!(args.len, 5);
    assert_eq!(args.get(1), "two words");
    assert_eq!(args.get(2), "");
    assert_eq!(args.get(3), "a b");
    assert_eq!(args.get(4), r"x\y");
    assert!(Arguments::parse("echo 'unfinished").is_err());
    assert!(Arguments::parse("echo \\").is_err());
    assert!(Arguments::parse("echo hi | cat").is_err());
    assert_eq!(Arguments::parse("   ").ok().unwrap().len, 0);
    assert_eq!(Arguments::parse("echo '|'").ok().unwrap().get(1), "|");
    let mut many = [b' '; 66];
    for index in (0..many.len()).step_by(2) {
        many[index] = b'x';
    }
    let many = core::str::from_utf8(&many).unwrap();
    assert_eq!(Arguments::parse(&many[..64]).ok().unwrap().len, MAX_ARGS);
    assert!(Arguments::parse(many).is_err());
}

#[test]
fn arguments_name_each_fault() {
    let fault = |input: &str| Arguments::parse(input).err().unwrap();
    assert_eq!(fault(&"x".repeat(257)), "input must be at most 256 ASCII bytes");
    assert_eq!(fault("caf\u{e9}"), "input must be at most 256 ASCII bytes");
    assert_eq!(fault("a > b"), "pipes, redirection and command chaining are not available");
    assert_eq!(fault("a\\"), "unfinished backslash escape");
    assert_eq!(fault("\"a"), "unclosed quote");
    assert_eq!(fault(&"x ".repeat(33)), "too many arguments (maximum 32)");
}

#[test]
fn a_backspace_undoes_typing() {
    let mut line = Line::new();
    for byte in b"net" {
        line.insert(*byte);
    }
    line.move_to(1);
    assert!(line.insert(b'X'));
    assert_eq!(line.as_str(), "nXet");
    line.backspace();
    assert_eq!(line.as_str(), "net");
    assert_eq!(line.cursor, 1);
}

#[test]
fn erasing_keeps_the_other_side() {
    let mut line = Line::new();
    for byte in b"hello world" {
        line.insert(*byte);
    }
    line.move_to(5);
    line.erase_to_end();
    assert_eq!(line.as_str(), "hello");
    line.move_to(2);
    line.erase_to_start();
    assert_eq!(line.as_str(), "llo");
    assert_eq!(line.cursor, 0);
}

#[test]
fn blank_lines_are_not_remembered() {
    let mut history = History::new();
    let mut blank = Line::new();
    blank.insert(b' ');
    history.record(blank);
    history.record(Line::new());
    assert_eq!(history.len, 0);
}

#[test]
fn a_new_shell_greets_and_prompts() {
    let (shell, writer) = start();
    assert_eq!(row(&writer, 2), "    (v)   (v)         OS: CrabOS 0.1.0 x86_64");
    assert_eq!(row(&writer, 4), "   __/ o o \\__        CPU: GenuineIntel");
    assert_eq!(row(&writer, 6), "  \\ \\|     |/ /       Uptime: 1h 2m 5s");
    assert_eq!(row(&writer, 8), "    / /   \\ \\         Heap (payload): 42 B / 100 KiB");
    assert_eq!(row(&writer, 13), "Welcome to CrabOS. Type 'help' to get started.");
    assert_eq!(row(&writer, 16), "shaolin@crabos:~$");
    assert_eq!(shell.anchor.column, 18);
}

#[test]
fn echo_prints_its_arguments() {
    assert_eq!(output("echo \"hello CrabOS\""), ["hello CrabOS"]);
    assert_eq!(
        output("echo 'a pipe | is literal inside quotes'"),
        ["a pipe | is literal inside quotes"]
    );
    assert_eq!(output("echo one\\ argument two"), ["one argument two"]);
    assert_eq!(output("echo"), [""]);
}

#[test]
fn short_commands_print_their_answers() {
    assert_eq!(output("uname"), ["CrabOS"]);
    assert_eq!(output("uname -a"), ["CrabOS crabos 0.1.0 x86_64"]);
    assert_eq!(output("uname -x"), ["usage: uname [-a]"]);
    assert_eq!(output("uptime"), ["up 1h 2m 5s"]);
    assert_eq!(output("whoami"), ["shaolin"]);
    assert_eq!(output("hostname"), ["crabos"]);
    assert_eq!(
        output("fastfetch --version"),
        ["CrabOS native fastfetch 0.1.0 (not the upstream program)"]
    );
    assert_eq!(output("whoami now"), ["usage: whoami (no arguments)"]);
    assert_eq!(output("frob"), ["crabsh: frob: command not found. Try 'help'."]);
    assert_eq!(output("echo 'a"), ["crabsh: unclosed quote"]);
    assert_eq!(output("  "), [""; 0]);
}

#[test]
fn mem_and_history_print_tables() {
    let mem = output("mem");
    assert_eq!(mem[0], "Boot-usable physical RAM: 0 KiB");
    assert_eq!(mem[1], "Kernel heap capacity:     100 KiB");
    assert_eq!(mem[2], "Live allocation payload:  42 bytes");
    assert_eq!(mem.len(), 5);
    assert_eq!(output("history"), ["  1  history"]);
}

#[test]
fn help_lists_every_command() {
    let help = output("help");
    assert_eq!(help[0], "  help       Show commands and keyboard shortcuts");
    assert_eq!(help[12], "  browse     Fetch and show a plain HTTP page as text");
    assert_eq!(help.len(), 13 + 8);
    assert_eq!(output("net --help"), ["net: Show Ethernet controller and link status"]);
    assert_eq!(output("frob --help"), ["crabsh: frob: command not found. Try 'help'."]);
}

#[test]
fn clear_leaves_only_a_prompt() {
    let (mut shell, mut writer) = start();
    press(&mut shell, &mut writer, "clear\n");
    assert_eq!(row(&writer, 0), "shaolin@crabos:~$");
    assert_eq!(writer.last_line, 0);
}

#[test]
fn lspci_asks_and_prints_the_answer() {
    let (mut shell, mut writer) = start();
    let request = press(&mut shell, &mut writer, "lspci\n");
    assert!(matches!(request, Some(Request::Devices)));
    let line = writer.cursor.line;
    let found = Address { bus: 0x1a, device: 0x1f, function: 7 };
    shell.answer(&Answer::Devices(Some(found)), &mut writer);
    assert_eq!(row(&writer, line), "1a:1f.7 Intel I225-V Ethernet [8086:15f3]");
    assert_eq!(row(&writer, line + 1), "shaolin@crabos:~$");
    press(&mut shell, &mut writer, "lspci\n");
    let line = writer.cursor.line;
    shell.answer(&Answer::Devices(None), &mut writer);
    assert_eq!(row(&writer, line), "Intel I225-V Ethernet [8086:15f3] not found");
}

#[test]
fn net_asks_and_prints_the_answer() {
    let (mut shell, mut writer) = start();
    assert!(matches!(press(&mut shell, &mut writer, "net\n"), Some(Request::Network)));
    let line = writer.cursor.line;
    let status = ([0x52, 0x54, 0, 0x12, 0x34, 0x56], true);
    shell.answer(&Answer::Network(Some(status)), &mut writer);
    assert_eq!(row(&writer, line), "QEMU e1000 52:54:00:12:34:56 link up");
    press(&mut shell, &mut writer, "net\n");
    let line = writer.cursor.line;
    shell.answer(&Answer::Network(None), &mut writer);
    assert_eq!(row(&writer, line), "No initialized Ethernet controller");
}

#[test]
fn browse_asks_for_a_page_and_shows_it() {
    let (mut shell, mut writer) = start();
    match press(&mut shell, &mut writer, "browse http://example.com/\n") {
        Some(Request::Page(url)) => assert_eq!(url, "http://example.com/"),
        _ => panic!("no page was asked for"),
    }
    let line = writer.cursor.line;
    let response = b"HTTP/1.0 200 OK\r\nContent-Type: text/html\r\n\r\n<p>Hi</p>".to_vec();
    shell.answer(&Answer::Page(Ok(response)), &mut writer);
    assert_eq!(row(&writer, line), "HTTP/1.0 200 OK");
    assert_eq!(row(&writer, line + 1), "Hi");
    press(&mut shell, &mut writer, "browse http://example.com/\n");
    let line = writer.cursor.line;
    shell.answer(&Answer::Page(Err("no network")), &mut writer);
    assert_eq!(row(&writer, line), "browse: no network");
    assert_eq!(output("browse https://example.com/"), ["browse: use an http:// URL"]);
    assert_eq!(output("browse http://a:b/"), ["browse: invalid HTTP port"]);
    assert_eq!(output("browse"), ["usage: browse http://host/path"]);
    assert_eq!(output("browse --help"), ["browse: Fetch and show a plain HTTP page as text"]);
}

#[test]
fn overlong_input_is_rejected() {
    let (mut shell, mut writer) = start();
    press(&mut shell, &mut writer, &"x".repeat(257));
    assert!(shell.line.overflow);
    assert!(press(&mut shell, &mut writer, "\n").is_none());
    assert_eq!(
        row(&writer, writer.cursor.line - 1),
        "crabsh: input exceeds 256 bytes; command discarded."
    );
    assert_eq!(shell.history.len, 0);
    assert_eq!(shell.line.len, 0);
}

#[test]
fn deleting_makes_overlong_input_usable() {
    let (mut shell, mut writer) = start();
    press(&mut shell, &mut writer, &"x".repeat(257));
    press(&mut shell, &mut writer, "\u{8}\n");
    assert_eq!(shell.history.len, 1);
}

#[test]
fn tab_completes_a_unique_command() {
    let (mut shell, mut writer) = start();
    press(&mut shell, &mut writer, "fa\t");
    assert_eq!(shell.line.as_str(), "fastfetch ");
    assert_eq!(row(&writer, writer.cursor.line), "shaolin@crabos:~$ fastfetch");
}

#[test]
fn tab_extends_to_the_common_part_and_lists() {
    let (mut shell, mut writer) = start();
    press(&mut shell, &mut writer, "h\t");
    assert_eq!(shell.line.as_str(), "h");
    assert_eq!(row(&writer, writer.cursor.line - 1), "help  history  hostname");
    assert_eq!(row(&writer, writer.cursor.line), "shaolin@crabos:~$ h");
    press(&mut shell, &mut writer, "o\t");
    assert_eq!(shell.line.as_str(), "hostname ");
    let before = writer.cursor.line;
    press(&mut shell, &mut writer, "zz\t");
    assert_eq!(shell.line.as_str(), "hostname zz");
    assert_eq!(writer.cursor.line, before);
}

#[test]
fn keys_move_and_edit() {
    let (mut shell, mut writer) = start();
    press(&mut shell, &mut writer, "echo one two");
    press(&mut shell, &mut writer, "\u{17}");
    assert_eq!(shell.line.as_str(), "echo one ");
    for _ in 0..2 {
        shell.handle_key(DecodedKey::RawKey(KeyCode::ArrowLeft), &facts(), &mut writer);
    }
    shell.handle_key(DecodedKey::RawKey(KeyCode::Delete), &facts(), &mut writer);
    assert_eq!(shell.line.as_str(), "echo on ");
    press(&mut shell, &mut writer, "\u{1}");
    assert_eq!(shell.line.cursor, 0);
    press(&mut shell, &mut writer, "\u{6}\u{6}\u{15}");
    assert_eq!(shell.line.as_str(), "ho on ");
    press(&mut shell, &mut writer, "\u{5}\u{2}\u{b}");
    assert_eq!(shell.line.as_str(), "ho on");
    shell.handle_key(DecodedKey::RawKey(KeyCode::F1), &facts(), &mut writer);
    press(&mut shell, &mut writer, "\u{e9}");
    assert_eq!(shell.line.as_str(), "ho on");
    assert_eq!(row(&writer, writer.cursor.line), "shaolin@crabos:~$ ho on");
}

#[test]
fn arrows_recall_history_and_the_draft() {
    let (mut shell, mut writer) = start();
    press(&mut shell, &mut writer, "whoami\nuptime\ndraft");
    let mut arrow = |code| {
        shell.handle_key(DecodedKey::RawKey(code), &facts(), &mut writer);
        shell.line.as_str().to_string()
    };
    assert_eq!(arrow(KeyCode::ArrowUp), "uptime");
    assert_eq!(arrow(KeyCode::ArrowUp), "whoami");
    assert_eq!(arrow(KeyCode::ArrowUp), "whoami");
    assert_eq!(arrow(KeyCode::ArrowDown), "uptime");
    assert_eq!(arrow(KeyCode::ArrowDown), "draft");
}

#[test]
fn control_l_keeps_the_command() {
    let (mut shell, mut writer) = start();
    press(&mut shell, &mut writer, "echo hi\u{c}");
    assert_eq!(shell.line.as_str(), "echo hi");
    assert_eq!(row(&writer, 0), "shaolin@crabos:~$ echo hi");
}

#[test]
fn cancelling_keeps_the_history() {
    let (mut shell, mut writer) = start();
    press(&mut shell, &mut writer, "uname\nhalf\u{3}");
    assert_eq!(shell.line.len, 0);
    assert_eq!(shell.history.len, 1);
    assert_eq!(row(&writer, writer.cursor.line - 1), "shaolin@crabos:~$ half^C");
}

#[test]
fn typing_returns_to_the_live_display() {
    let (mut shell, mut writer) = start();
    for _ in 0..5 {
        press(&mut shell, &mut writer, "help\n");
    }
    shell.handle_key(DecodedKey::RawKey(KeyCode::PageUp), &facts(), &mut writer);
    assert!(writer.view_top < writer.live_top());
    press(&mut shell, &mut writer, "a");
    assert_eq!(writer.view_top, writer.live_top());
}

#[test]
fn lost_input_is_reported() {
    let (mut shell, mut writer) = start();
    press(&mut shell, &mut writer, "half");
    shell.input_lost(&mut writer);
    assert_eq!(
        row(&writer, writer.cursor.line - 2),
        "crabsh: keyboard input overflow; line discarded."
    );
    assert_eq!(
        row(&writer, writer.cursor.line - 1),
        "Release modifier keys before typing again."
    );
    assert_eq!(shell.line.len, 0);
}

#[test]
fn resizing_keeps_the_history_only() {
    let (mut shell, mut writer) = start();
    press(&mut shell, &mut writer, "uname\nhalf");
    writer.set_columns(36);
    shell.reset_for_resize(&mut writer);
    assert_eq!(row(&writer, 0), "shaolin@crabos:~$");
    assert_eq!(writer.last_line, 0);
    assert_eq!(shell.line.len, 0);
    assert_eq!(shell.history.len, 1);
}

#[test]
fn a_shell_starts_in_a_single_column() {
    let mut writer = Writer::new();
    writer.set_columns(1);
    let mut shell = Shell::new(info(), &facts(), &mut writer);
    assert_eq!(row(&writer, writer.cursor.line - 1), "$");
    shell.reset_for_resize(&mut writer);
    assert_eq!(writer.cursor.line, 17);
    assert_eq!(shell.anchor, writer.position());
}
