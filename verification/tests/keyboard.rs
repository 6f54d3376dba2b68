use crab_os::console::{render_desktop, Console};
use crab_os::desktop::{is_open, mouse_byte, Desktop, InputEvent};
use crab_os::shell::answers::Answer;
use crab_os::shell::commands::Request;
use crab_os::system::{Cpuid, CpuidLeaf, Facts, SystemInfo};
use crab_os::task::keyboard::{
    add_scancode, decoder, dropped_scancodes, map_event, ScancodeStream,
};
use crab_os::task::session::Session;
use pc_keyboard::{DecodedKey, KeyCode, KeyEvent, KeyState};

struct Machine {
    session: Session,
    stream: ScancodeStream,
    desktop: Desktop,
    console: Console,
}

fn facts() -> Facts {
    Facts { uptime_seconds: 0, heap_size: 0, requested_bytes: 0 }
}

fn machine() -> Machine {
    let empty = CpuidLeaf { eax: 0, ebx: 0, ecx: 0, edx: 0 };
    let cpu = Cpuid { base: empty, features: empty, extended: empty, brand: [empty; 3] };
    let stream = ScancodeStream::new();
    let mut console = Console::new();
    let session = Session::new(SystemInfo::new(&[], &cpu), &facts(), &stream, &mut console);
    Machine { session, stream, desktop: Desktop::new(), console }
}

impl Machine {
    fn send(&mut self, byte: u8) -> Option<(usize, Request)> {
        self.session.scancode(
            byte,
            &facts(),
            &mut self.stream,
            &mut self.desktop,
            &mut self.console,
        )
    }

    fn control(&mut self, byte: u8) {
        self.send(0x1d);
        self.send(byte);
        self.send(byte | 0x80);
        self.send(0x9d);
    }
}

#[test]
fn ansi_backslash_pipe_and_control_keys_decode() {
    let mut keyboard = decoder();
    let mut decode = |scancode| keyboard.decode(scancode);
    assert_eq!(decode(0x2b), Some(DecodedKey::Unicode('\\')));
    decode(0xab);
    decode(0x2a); // left Shift down
    assert_eq!(decode(0x2b), Some(DecodedKey::Unicode('|')));
    decode(0xab);
    decode(0xaa); // Shift up
    decode(0x1d); // left Ctrl down
    assert_eq!(decode(0x2e), Some(DecodedKey::Unicode('\u{3}')));
    decode(0xae);
    decode(0x9d); // Ctrl up
    assert_eq!(decode(0x2e), Some(DecodedKey::Unicode('c')));
}

#[test]
fn extended_codes_take_two_bytes() {
    let mut keyboard = decoder();
    assert_eq!(keyboard.decode(0xe0), None);
    assert_eq!(keyboard.decode(0x48), Some(DecodedKey::RawKey(KeyCode::ArrowUp)));
    assert_eq!(keyboard.decode(0xff), None);
    assert_eq!(keyboard.decode(0x1e), Some(DecodedKey::Unicode('a')));
}

#[test]
fn only_the_ansi_backslash_is_mapped() {
    let event = |code| KeyEvent { code, state: KeyState::Down };
    assert_eq!(map_event(event(KeyCode::Oem7)), event(KeyCode::Oem5));
    assert_eq!(map_event(event(KeyCode::A)), event(KeyCode::A));
}

#[test]
fn the_queue_keeps_the_first_hundred_bytes() {
    let mut stream = ScancodeStream::new();
    for byte in 0..103 {
        add_scancode(&mut stream, byte);
    }
    assert_eq!(dropped_scancodes(&stream), 3);
    assert_eq!(stream.next_scancode(), Some(0));
    assert_eq!(stream.next_scancode(), Some(1));
    stream.drain();
    assert_eq!(stream.next_scancode(), None);
    stream.dropped = usize::MAX;
    for _ in 0..101 {
        add_scancode(&mut stream, 9);
    }
    assert_eq!(dropped_scancodes(&stream), 0);
}

#[test]
fn typing_reaches_the_focused_shell() {
    let mut machine = machine();
    machine.send(0x16);
    machine.send(0x96);
    assert_eq!(machine.session.shells[0].line.as_str(), "u");
    assert_eq!(machine.session.shells[1].line.as_str(), "");
    machine.desktop.active = 1;
    machine.console.active = 1;
    machine.send(0x31);
    assert_eq!(machine.session.shells[1].line.as_str(), "n");
}

#[test]
fn control_q_opens_and_control_c_closes() {
    let mut machine = machine();
    machine.control(0x10);
    assert!(is_open(&machine.desktop, 0));
    machine.send(0x16);
    assert_eq!(machine.session.shells[0].line.as_str(), "u");
    machine.control(0x10);
    assert!(is_open(&machine.desktop, 1));
    assert_eq!(machine.session.shells[0].line.as_str(), "");
    assert_eq!(machine.console.terminals[0].columns, 36);
    machine.control(0x2e);
    assert!(!is_open(&machine.desktop, 1));
    assert_eq!(machine.desktop.active, 0);
    assert_eq!(machine.console.terminals[0].columns, 72);
    machine.control(0x2e);
    assert!(!is_open(&machine.desktop, 0));
}

#[test]
fn closing_keeps_the_history() {
    let mut machine = machine();
    machine.control(0x10);
    machine.send(0x16);
    machine.send(0x1c);
    assert_eq!(machine.session.shells[0].history.len, 1);
    machine.session.handle_event(
        InputEvent::CloseTerminal(0),
        &mut machine.desktop,
        &mut machine.console,
    );
    machine.session.handle_event(
        InputEvent::OpenTerminal,
        &mut machine.desktop,
        &mut machine.console,
    );
    assert_eq!(machine.session.shells[0].history.len, 1);
    assert_eq!(machine.console.terminals[0].last_line, 0);
}

#[test]
fn closing_a_closed_window_changes_nothing_shown() {
    let mut machine = machine();
    machine.send(0x16);
    machine.control(0x2e);
    assert_eq!(machine.session.shells[0].line.as_str(), "u");
    assert_eq!(machine.console.terminals[0].columns, 76);
}

#[test]
fn dropped_bytes_reset_decoder_and_line() {
    let mut machine = machine();
    machine.send(0x2a); // left Shift down
    machine.send(0x16);
    assert_eq!(machine.session.shells[0].line.as_str(), "U");
    for _ in 0..101 {
        add_scancode(&mut machine.stream, 0x16);
    }
    assert!(machine.send(0x16).is_none());
    assert_eq!(machine.session.shells[0].line.as_str(), "");
    assert_eq!(machine.stream.next_scancode(), None);
    machine.send(0x16);
    assert_eq!(machine.session.shells[0].line.as_str(), "u");
}

#[test]
fn requests_name_their_terminal() {
    let mut machine = machine();
    for byte in [0x31, 0x12, 0x14] {
        machine.send(byte);
    }
    let request = machine.send(0x1c);
    assert!(matches!(request, Some((0, Request::Network))));
    let line = machine.console.terminals[0].cursor.line;
    machine.session.answer(0, &Answer::Network(None), &machine.desktop, &mut machine.console);
    assert!(machine.console.terminals[0].cursor.line > line);
}

#[test]
fn the_mouse_leaves_the_shells_alone() {
    let mut machine = machine();
    machine.control(0x10);
    machine.send(0x16);
    for byte in [0x09, 0x40, 0x20, 0x38, 0xff, 0x80] {
        mouse_byte(&mut machine.desktop, &mut machine.console, byte);
    }
    machine.send(0x31);
    assert_eq!(machine.session.shells[0].line.as_str(), "un");
}

#[test]
fn decoded_keys_are_routed() {
    let mut machine = machine();
    let mut press = |key| {
        machine.session.handle_key(key, &facts(), &mut machine.desktop, &mut machine.console)
    };
    assert!(press(DecodedKey::Unicode('\u{11}')).is_none());
    for c in "lspci".chars() {
        press(DecodedKey::Unicode(c));
    }
    press(DecodedKey::RawKey(KeyCode::Home));
    assert!(matches!(press(DecodedKey::Unicode('\n')), Some((0, Request::Devices))));
    press(DecodedKey::Unicode('\u{3}'));
    assert!(!is_open(&machine.desktop, 0));
}

#[test]
fn the_prompt_stays_visible_after_long_output() {
    let mut machine = machine();
    machine.control(0x10);
    for _ in 0..4 {
        for byte in [0x23, 0x12, 0x26, 0x19, 0x1c] {
            machine.send(byte);
        }
        let frame = render_desktop(&machine.console, &machine.desktop);
        let swapped = frame.iter().filter(|cell| cell.color_code == 0x70).count();
        assert_eq!(swapped, 1);
        let place = frame.iter().position(|cell| cell.color_code == 0x70).unwrap();
        assert_eq!(place, 21 * 80 + 4 + 18);
        assert_eq!(frame[place - 18].ascii_character, b's');
    }
}
