use crab_os::vga_buffer::{
    attribute_byte, Color, Position, ScreenChar, Writer, BUFFER_HEIGHT, BUFFER_WIDTH,
    SCROLLBACK_LINES, VIEW_HEIGHT,
};

#[test]
fn starts_at_the_origin() {
    let writer = Writer::new();
    assert_eq!(writer.position(), Position { line: 0, column: 0 });
    assert_eq!(writer.columns, 80);
}

#[test]
fn output_wraps_and_scrolls() {
    let mut writer = Writer::new();
    writer.clear();
    for _ in 0..BUFFER_WIDTH {
        writer.write_byte(b'x');
    }
    writer.write_string("\ny");
    assert_eq!(writer.position(), Position { line: 1, column: 1 });
    for i in 0..200 {
        writer.write_str(&format!("line {i}\n"));
    }
    assert_eq!(writer.first_line, writer.last_line + 1 - SCROLLBACK_LINES);
    for _ in 0..10 {
        writer.scroll_up();
    }
    assert_eq!(writer.view_top, writer.first_line);
    writer.scroll_down();
    assert!(writer.view_top > writer.first_line);
    writer.write_byte(b'z');
    assert_eq!(writer.view_top, writer.live_top());
}

#[test]
fn editing_erases_wrapped_text_and_preserves_prompt() {
    let mut writer = Writer::new();
    writer.clear();
    writer.write_string("crab> ");
    let anchor = writer.position();
    let text = "a".repeat(160);
    writer.replace_input(anchor, &text, 81, 0);
    assert_eq!(writer.position(), Position { line: 1, column: 7 });
    writer.replace_input(anchor, "hi", 1, 160);
    assert_eq!(writer.lines[0][0].ascii_character, b'c');
    assert_eq!(writer.lines[0][6].ascii_character, b'h');
    assert_eq!(writer.lines[0][8].ascii_character, b' ');
    assert_eq!(writer.lines[2][5].ascii_character, b' ');
    assert_eq!(writer.position(), Position { line: 0, column: 7 });
}

#[test]
fn editing_at_bottom_after_scrollback_ring_wrap() {
    let mut writer = Writer::new();
    writer.clear();
    for _ in 0..SCROLLBACK_LINES + BUFFER_HEIGHT {
        writer.write_string("old output\n");
    }
    writer.write_string("crab> ");
    let anchor = writer.position();
    let text = "x".repeat(256);
    writer.replace_input(anchor, &text, 256, 0);
    assert!(writer.first_line > 0);
    assert_eq!(writer.cursor.line, writer.last_line);
    writer.scroll_up();
    writer.replace_input(anchor, "echo ok", 7, 256);
    assert_eq!(writer.view_top, writer.live_top());
    assert_eq!(writer.lines[anchor.line % SCROLLBACK_LINES][0].ascii_character, b'c');
    assert_eq!(writer.lines[(anchor.line + 3) % SCROLLBACK_LINES][0].ascii_character, b' ');
    writer.write_string("\nok\n");
    assert_eq!(writer.cursor.line, anchor.line + 2);
}

#[test]
fn offset_leaves_the_wrap_pending() {
    let start = Position { line: 2, column: 70 };
    assert_eq!(start.offset(9, 80), Position { line: 2, column: 79 });
    assert_eq!(start.offset(10, 80), Position { line: 2, column: 80 });
    assert_eq!(start.offset(11, 80), Position { line: 3, column: 1 });
    assert_eq!(Position { line: 0, column: 0 }.offset(0, 80), Position { line: 0, column: 0 });
}

#[test]
fn control_bytes_and_unprintable_ones() {
    let mut writer = Writer::new();
    writer.write_string("ab\tc\rX");
    assert_eq!(writer.lines[0][0].ascii_character, b'X');
    assert_eq!(writer.lines[0][1].ascii_character, b'b');
    assert_eq!(writer.lines[0][4].ascii_character, b'c');
    writer.write_string("\u{e9}\u{7}");
    assert_eq!(writer.lines[0][1].ascii_character, 0xfe);
    assert_eq!(writer.lines[0][2].ascii_character, 0xfe);
    assert_eq!(writer.position(), Position { line: 0, column: 3 });
}

#[test]
fn colors_have_their_text_mode_numbers() {
    assert_eq!(Color::Black.code(), 0);
    assert_eq!(Color::Brown.code(), 6);
    assert_eq!(Color::White.code(), 15);
    assert_eq!(attribute_byte(Color::White, Color::Blue), 0x1f);
    let mut writer = Writer::new();
    writer.set_color(Color::LightGreen, Color::Black);
    writer.write_byte(b'$');
    assert_eq!(writer.lines[0][0], ScreenChar { ascii_character: b'$', color_code: 10 });
}

#[test]
fn narrow_columns_wrap_earlier() {
    let mut writer = Writer::new();
    writer.set_columns(10);
    writer.write_str("0123456789a");
    assert_eq!(writer.position(), Position { line: 1, column: 1 });
    assert_eq!(writer.lines[1][0].ascii_character, b'a');
}

#[test]
fn numbers_are_printed_in_decimal_and_hexadecimal() {
    let mut writer = Writer::new();
    writer.write_decimal(0);
    writer.write_byte(b' ');
    writer.write_decimal(u64::MAX);
    writer.write_byte(b' ');
    writer.write_hex_byte(0x0f);
    writer.write_hex_byte(0xa0);
    let shown: Vec<u8> = writer.lines[0].iter().map(|cell| cell.ascii_character).collect();
    let text = String::from_utf8(shown).unwrap();
    assert_eq!(text.trim_end(), "0 18446744073709551615 0fa0");
}

#[test]
fn input_of_256_characters_keeps_its_prompt_in_the_ring() {
    let mut writer = Writer::new();
    writer.set_columns(36);
    for _ in 0..300 {
        writer.write_str("x\n");
    }
    writer.write_str("$ ");
    let anchor = writer.position();
    writer.replace_input(anchor, &"y".repeat(256), 256, 0);
    assert!(writer.first_line <= anchor.line);
    assert_eq!(writer.lines[anchor.line % SCROLLBACK_LINES][0].ascii_character, b'$');
}

#[test]
fn paging_brings_every_line_into_view() {
    for count in [5, 15, 16, 20, 24, 40, 127, 128, 300] {
        let mut writer = Writer::new();
        for _ in 0..count {
            writer.write_str("x\n");
        }
        let mut shown = vec![false; writer.last_line + 1];
        loop {
            let top = writer.view_top;
            for line in top..(top + VIEW_HEIGHT).min(shown.len()) {
                shown[line] = true;
            }
            writer.scroll_up();
            if writer.view_top == top {
                break;
            }
        }
        assert_eq!(writer.view_top, writer.first_line);
        assert!(shown[writer.first_line..].iter().all(|line| *line));
    }
}

#[test]
fn a_page_down_undoes_a_page_up() {
    let mut writer = Writer::new();
    for _ in 0..60 {
        writer.write_str("x\n");
    }
    assert_eq!(writer.view_top, 45);
    writer.scroll_up();
    assert_eq!(writer.view_top, 30);
    writer.scroll_down();
    assert_eq!(writer.view_top, 45);
    writer.scroll_down();
    assert_eq!(writer.view_top, writer.live_top());
}
