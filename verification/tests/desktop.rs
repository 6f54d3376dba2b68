use crab_os::console::{
    active_terminal, refresh, render_desktop, set_active_terminal, set_terminal_columns,
    with_writer, Console,
};
use crab_os::desktop::{
    close_active, close_terminal, is_open, mouse_byte, open_terminal, pointer, windows, Desktop,
    InputEvent,
};

fn packet(
    desktop: &mut Desktop,
    console: &mut Console,
    flags: u8,
    dx: i16,
    dy: i16,
) -> Option<InputEvent> {
    let sign_x = if dx < 0 { 0x10 } else { 0 };
    let sign_y = if dy < 0 { 0x20 } else { 0 };
    assert_eq!(mouse_byte(desktop, console, flags | 8 | sign_x | sign_y), (false, None));
    assert_eq!(mouse_byte(desktop, console, dx as u8), (false, None));
    let (redraw, event) = mouse_byte(desktop, console, dy as u8);
    assert!(redraw);
    event
}

/// Move the pointer to a cell without pressing anything.
fn point(desktop: &mut Desktop, console: &mut Console, x: i16, y: i16) {
    while pointer(desktop) != (x, y) {
        let (px, py) = pointer(desktop);
        let dx = ((x - px) * 8).clamp(-240, 240);
        let dy = ((py - y) * 16).clamp(-240, 240);
        packet(desktop, console, 0, dx, dy);
    }
}

fn text(desktop: &Desktop, console: &Console, row: usize, col: usize, len: usize) -> String {
    let frame = render_desktop(console, desktop);
    frame[row * 80 + col..row * 80 + col + len]
        .iter()
        .map(|cell| cell.ascii_character as char)
        .collect()
}

#[test]
fn starts_without_windows() {
    let desktop = Desktop::new();
    assert_eq!(windows(&desktop), [None, None]);
    assert_eq!(pointer(&desktop), (72, 22));
    assert!(!is_open(&desktop, 0));
    assert!(!is_open(&desktop, 9));
}

#[test]
fn a_packet_needs_its_marker_bit() {
    let mut desktop = Desktop::new();
    let mut console = Console::new();
    assert_eq!(mouse_byte(&mut desktop, &mut console, 0x07), (false, None));
    assert_eq!(desktop.packet_len, 0);
    assert_eq!(mouse_byte(&mut desktop, &mut console, 0x08), (false, None));
    assert_eq!(desktop.packet_len, 1);
}

#[test]
fn motion_is_kept_below_one_cell() {
    let mut desktop = Desktop::new();
    let mut console = Console::new();
    packet(&mut desktop, &mut console, 0, -7, 0);
    assert_eq!(pointer(&desktop), (72, 22));
    packet(&mut desktop, &mut console, 0, -1, 17);
    assert_eq!(pointer(&desktop), (71, 21));
    assert_eq!(desktop.motion_y, 1);
}

#[test]
fn the_pointer_stays_on_the_screen() {
    let mut desktop = Desktop::new();
    let mut console = Console::new();
    for _ in 0..10 {
        packet(&mut desktop, &mut console, 0, 255, -256);
    }
    assert_eq!(pointer(&desktop), (79, 24));
    for _ in 0..10 {
        packet(&mut desktop, &mut console, 0, -256, 255);
    }
    assert_eq!(pointer(&desktop), (0, 0));
}

#[test]
fn one_window_is_wide_and_two_share_the_screen() {
    let mut desktop = Desktop::new();
    let mut console = Console::new();
    assert_eq!(open_terminal(&mut desktop, &mut console), Some(0));
    assert_eq!(windows(&desktop), [Some((3, 4, 74)), None]);
    assert_eq!(console.terminals[0].columns, 72);
    assert_eq!(console.terminals[1].columns, 76);
    assert_eq!(open_terminal(&mut desktop, &mut console), Some(1));
    assert_eq!(windows(&desktop), [Some((1, 4, 38)), Some((41, 4, 38))]);
    assert_eq!(console.terminals[0].columns, 36);
    assert_eq!(active_terminal(&console), 1);
    assert_eq!(open_terminal(&mut desktop, &mut console), None);
    close_terminal(&mut desktop, &mut console, 0);
    assert_eq!(windows(&desktop), [None, Some((6, 4, 74))]);
    assert_eq!(active_terminal(&console), 1);
    close_active(&mut desktop, &mut console);
    assert_eq!(windows(&desktop), [None, None]);
    assert_eq!(active_terminal(&console), 1);
}

#[test]
fn the_icon_opens_a_terminal() {
    let mut desktop = Desktop::new();
    let mut console = Console::new();
    point(&mut desktop, &mut console, 12, 3);
    let event = packet(&mut desktop, &mut console, 1, 0, 0);
    assert_eq!(event, Some(InputEvent::OpenTerminal));
    assert_eq!(packet(&mut desktop, &mut console, 1, 0, 0), None);
    packet(&mut desktop, &mut console, 0, 8, 0);
    assert_eq!(packet(&mut desktop, &mut console, 1, 0, 0), None);
}

#[test]
fn the_close_box_closes_its_window() {
    let mut desktop = Desktop::new();
    let mut console = Console::new();
    open_terminal(&mut desktop, &mut console);
    open_terminal(&mut desktop, &mut console);
    for (x, hit) in [(34, false), (35, true), (37, true), (38, false)] {
        point(&mut desktop, &mut console, x, 4);
        let event = packet(&mut desktop, &mut console, 1, 0, 0);
        assert_eq!(event == Some(InputEvent::CloseTerminal(0)), hit);
        packet(&mut desktop, &mut console, 0, 0, 0);
    }
    assert_eq!(desktop.active, 0);
}

#[test]
fn a_click_focuses_and_the_title_bar_drags() {
    let mut desktop = Desktop::new();
    let mut console = Console::new();
    open_terminal(&mut desktop, &mut console);
    open_terminal(&mut desktop, &mut console);
    point(&mut desktop, &mut console, 5, 10);
    packet(&mut desktop, &mut console, 1, 0, 0);
    assert_eq!(desktop.active, 0);
    assert_eq!(active_terminal(&console), 0);
    assert_eq!(desktop.drag, None);
    packet(&mut desktop, &mut console, 0, 0, 0);
    point(&mut desktop, &mut console, 5, 4);
    packet(&mut desktop, &mut console, 1, 0, 0);
    packet(&mut desktop, &mut console, 1, 80, 32);
    assert_eq!(windows(&desktop)[0], Some((11, 2, 38)));
    for _ in 0..5 {
        packet(&mut desktop, &mut console, 1, 255, 255);
    }
    assert_eq!(windows(&desktop)[0], Some((42, 1, 38)));
    packet(&mut desktop, &mut console, 0, -80, 0);
    assert_eq!(windows(&desktop)[0], Some((42, 1, 38)));
}

#[test]
fn the_desktop_shows_bar_icon_and_pointer() {
    let desktop = Desktop::new();
    let console = Console::new();
    assert_eq!(text(&desktop, &console, 0, 0, 24), " CrabOS desktop   Ctrl+Q");
    assert_eq!(text(&desktop, &console, 0, 24, 10), "Mouse: dra");
    assert_eq!(text(&desktop, &console, 2, 3, 10), " Terminal ");
    assert_eq!(text(&desktop, &console, 22, 72, 1), "+");
    let frame = render_desktop(&console, &desktop);
    assert_eq!(frame[0].color_code, 0x1f);
    assert_eq!(frame[24].color_code, 0x87);
}

#[test]
fn a_window_shows_its_terminal() {
    let mut desktop = Desktop::new();
    let mut console = Console::new();
    open_terminal(&mut desktop, &mut console);
    with_writer(&mut console).write_str("hello");
    assert_eq!(text(&desktop, &console, 4, 3, 21), " Terminal 1 - crabsh ");
    assert_eq!(text(&desktop, &console, 4, 73, 3), "[x]");
    assert_eq!(text(&desktop, &console, 6, 4, 6), "hello ");
    let frame = render_desktop(&console, &desktop);
    assert_eq!(frame[4 * 80 + 3].color_code, 0x1f);
    assert_eq!(frame[6 * 80 + 3].color_code, 0x8f);
    assert_eq!(frame[6 * 80 + 4].color_code, 0x07);
    assert_eq!(frame[6 * 80 + 9].color_code, 0x70);
    assert_eq!(frame[23 * 80 + 10].color_code, 0x8f);
}

#[test]
fn the_focused_window_covers_the_other() {
    let mut desktop = Desktop::new();
    let mut console = Console::new();
    open_terminal(&mut desktop, &mut console);
    open_terminal(&mut desktop, &mut console);
    desktop.windows[0].x = 30;
    assert_eq!(text(&desktop, &console, 4, 30, 21), " Terminal 1 Terminal ");
    desktop.active = 0;
    assert_eq!(text(&desktop, &console, 4, 30, 21), " Terminal 1 - crabsh ");
}

#[test]
fn refresh_draws_only_what_changed() {
    let mut desktop = Desktop::new();
    let mut console = Console::new();
    assert_eq!(refresh(&mut console, &desktop).len(), 2000);
    assert_eq!(refresh(&mut console, &desktop).len(), 0);
    packet(&mut desktop, &mut console, 0, -8, 0);
    let drawn = refresh(&mut console, &desktop);
    let places: Vec<usize> = drawn.iter().map(|change| change.index).collect();
    assert_eq!(places, [22 * 80 + 71, 22 * 80 + 72]);
    assert_eq!(drawn[0].cell.ascii_character, b'+');
    assert_eq!(drawn[1].cell.ascii_character, b' ');
}

#[test]
fn terminal_indices_beyond_the_second_mean_the_second() {
    let mut console = Console::new();
    set_active_terminal(&mut console, 7);
    assert_eq!(active_terminal(&console), 1);
    set_terminal_columns(&mut console, 7, 40);
    assert_eq!(console.terminals[1].columns, 40);
    assert_eq!(console.terminals[0].columns, 80);
}

#[test]
fn the_changed_cells_complete_the_picture() {
    let mut desktop = Desktop::new();
    let mut console = Console::new();
    let mut screen = vec![None; 2000];
    for step in 0..4 {
        match step {
            0 => {}
            1 => {
                open_terminal(&mut desktop, &mut console);
            }
            2 => with_writer(&mut console).write_str("some output"),
            _ => {
                packet(&mut desktop, &mut console, 0, -120, 100);
            }
        }
        for change in refresh(&mut console, &desktop) {
            screen[change.index] = Some(change.cell);
        }
        let whole: Vec<_> = render_desktop(&console, &desktop).into_iter().map(Some).collect();
        assert_eq!(screen, whole);
    }
}

#[test]
fn the_live_display_ends_at_the_last_line() {
    let mut desktop = Desktop::new();
    let mut console = Console::new();
    open_terminal(&mut desktop, &mut console);
    for line in 0..20 {
        with_writer(&mut console).write_str(&format!("line {line}\n"));
    }
    with_writer(&mut console).write_str("$ ");
    assert_eq!(text(&desktop, &console, 6, 4, 7), "line 5 ");
    assert_eq!(text(&desktop, &console, 21, 4, 2), "$ ");
    let frame = render_desktop(&console, &desktop);
    assert_eq!(frame[21 * 80 + 6].color_code, 0x70);
    for line in 20..60 {
        with_writer(&mut console).write_str(&format!("line {line}\n"));
    }
    assert_eq!(text(&desktop, &console, 20, 4, 7), "line 59");
    let frame = render_desktop(&console, &desktop);
    assert_eq!(frame[21 * 80 + 4].color_code, 0x70);
    with_writer(&mut console).scroll_up();
    let top = console.terminals[0].view_top;
    assert_eq!(text(&desktop, &console, 6, 4, 7), format!("line {top}"));
    let frame = render_desktop(&console, &desktop);
    assert_eq!(frame[21 * 80 + 4].color_code, 0x07);
}
