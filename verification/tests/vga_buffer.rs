use ferrios::vga_buffer::{CellWrite, Color, ColorCode, ScreenChar, Writer, BUFFER_HEIGHT, BUFFER_WIDTH};

#[test]
fn color_values() {
    assert_eq!(Color::Black.value(), 0);
    assert_eq!(Color::Blue.value(), 1);
    assert_eq!(Color::LightGray.value(), 7);
    assert_eq!(Color::DarkGray.value(), 8);
    assert_eq!(Color::Yellow.value(), 14);
    assert_eq!(Color::White.value(), 15);
}

#[test]
fn color_code_packs_background_high() {
    assert_eq!(ColorCode::new(Color::Yellow, Color::Black), ColorCode(0x0e));
    assert_eq!(ColorCode::new(Color::White, Color::Blue), ColorCode(0x1f));
    assert_eq!(ColorCode::new(Color::Black, Color::White), ColorCode(0xf0));
}

fn cell(col: usize, b: u8, c: ColorCode) -> CellWrite {
    CellWrite { row: BUFFER_HEIGHT - 1, col, ch: ScreenChar { ascii_character: b, color_code: c } }
}

#[test]
fn write_byte_goes_to_last_row() {
    let c = ColorCode::new(Color::Yellow, Color::Black);
    let mut w = Writer::new(c);
    assert_eq!(w.write_byte(b'H'), Some(cell(0, b'H', c)));
    assert_eq!(w.write_byte(b'i'), Some(cell(1, b'i', c)));
}

#[test]
fn write_byte_newline_writes_nothing() {
    let c = ColorCode::new(Color::Yellow, Color::Black);
    let mut w = Writer::new(c);
    assert_eq!(w.write_byte(b'\n'), None);
    assert_eq!(w.write_byte(b'x'), Some(cell(0, b'x', c)));
}

#[test]
fn write_string_replaces_unprintable_bytes() {
    let c = ColorCode::new(Color::Yellow, Color::Black);
    let mut w = Writer::new(c);
    assert_eq!(w.write_byte(b'H'), Some(cell(0, b'H', c)));
    let ws = w.write_string("ello ");
    assert_eq!(ws, vec![cell(1, b'e', c), cell(2, b'l', c), cell(3, b'l', c), cell(4, b'o', c), cell(5, b' ', c)]);
    let ws = w.write_string("Wörld!");
    // 'ö' is two bytes in UTF-8, each shown as 0xfe
    let expected: Vec<CellWrite> = [b'W', 0xfe, 0xfe, b'r', b'l', b'd', b'!']
        .iter()
        .enumerate()
        .map(|(i, b)| cell(6 + i, *b, c))
        .collect();
    assert_eq!(ws, expected);
}

#[test]
fn write_string_skips_newlines() {
    let c = ColorCode::new(Color::Green, Color::Black);
    let mut w = Writer::new(c);
    let ws = w.write_string("a\nb\tc");
    assert_eq!(ws, vec![cell(0, b'a', c), cell(1, b'b', c), cell(2, 0xfe, c), cell(3, b'c', c)]);
}

#[test]
fn write_string_fills_the_row() {
    let c = ColorCode::new(Color::Green, Color::Black);
    let mut w = Writer::new(c);
    let line = "x".repeat(BUFFER_WIDTH);
    let ws = w.write_string(&line);
    assert_eq!(ws.len(), BUFFER_WIDTH);
    assert_eq!(ws[BUFFER_WIDTH - 1], cell(BUFFER_WIDTH - 1, b'x', c));
    assert_eq!(w.write_byte(b'\n'), None);
}

#[test]
fn write_string_of_concatenation_matches_two_writes() {
    let c = ColorCode::new(Color::Cyan, Color::Black);
    let mut w1 = Writer::new(c);
    let mut w2 = Writer::new(c);
    let joined = w1.write_string("ab\nö!");
    let mut parts = w2.write_string("ab\n");
    parts.extend(w2.write_string("ö!"));
    assert_eq!(joined, parts);
    assert_eq!(w1.column_position(), w2.column_position());
    assert_eq!(w1.column_position(), 5);
}
