use phys_mem::vga::{CharWithColor, Color, Terminal, TextBuffer};

fn blank() -> CharWithColor {
    CharWithColor::new(b' ', Color::White, Color::Black)
}

#[test]
fn char_packing() {
    let cell = CharWithColor::new(b'A', Color::Yellow, Color::Black);
    assert_eq!(b'A', cell.ascii);
    assert_eq!(0x0e, cell.color);
    let inverse = CharWithColor::new(b'B', Color::Black, Color::Yellow);
    assert_eq!(0xe0, inverse.color);
}

#[test]
fn color_codes() {
    assert_eq!(0, Color::Black.code());
    assert_eq!(7, Color::LightGray.code());
    assert_eq!(14, Color::Yellow.code());
    assert_eq!(15, Color::White.code());
}

#[test]
fn set_char_and_read_back() {
    let mut buffer = TextBuffer::new(80, 25, blank());
    buffer.set_char_and_color(b'X', 3, 2, Color::Green, Color::Blue);
    let cell = buffer.char_at(3, 2);
    assert_eq!(b'X', cell.ascii);
    assert_eq!((1 << 4) | 2, cell.color);
    /* Neighbours are untouched. */
    assert_eq!(b' ', buffer.char_at(2, 2).ascii);
    assert_eq!(b' ', buffer.char_at(4, 2).ascii);
    assert_eq!(b' ', buffer.char_at(3, 1).ascii);
}

#[test]
fn scroll_up_moves_rows_and_blanks_the_last() {
    let mut buffer = TextBuffer::new(4, 3, blank());
    buffer.set_char_and_color(b'a', 0, 0, Color::White, Color::Black);
    buffer.set_char_and_color(b'b', 1, 1, Color::White, Color::Black);
    buffer.set_char_and_color(b'c', 2, 2, Color::White, Color::Black);
    buffer.scroll_up();
    assert_eq!(b'b', buffer.char_at(1, 0).ascii);
    assert_eq!(b'c', buffer.char_at(2, 1).ascii);
    /* The old top row's character is lost, the last row is blanked. */
    assert_eq!(b' ', buffer.char_at(0, 0).ascii);
    for column in 0..4 {
        assert_eq!(b' ', buffer.char_at(column, 2).ascii);
        assert_eq!(0, buffer.char_at(column, 2).color);
    }
}

#[test]
fn terminal_types_characters_and_advances() {
    let buffer = TextBuffer::new(80, 25, blank());
    let mut terminal = Terminal::new(buffer, Color::White, Color::Black);
    terminal.write_ascii(b'h');
    terminal.write_ascii(b'i');
    assert_eq!(b'h', terminal.buffer().char_at(0, 0).ascii);
    assert_eq!(b'i', terminal.buffer().char_at(1, 0).ascii);
}

#[test]
fn terminal_newline_moves_to_next_row() {
    let buffer = TextBuffer::new(80, 25, blank());
    let mut terminal = Terminal::new(buffer, Color::White, Color::Black);
    terminal.write_ascii(b'a');
    terminal.write_ascii(b'\n');
    terminal.write_ascii(b'b');
    assert_eq!(b'a', terminal.buffer().char_at(0, 0).ascii);
    assert_eq!(b'b', terminal.buffer().char_at(0, 1).ascii);
}

#[test]
fn terminal_wraps_before_the_last_column() {
    let buffer = TextBuffer::new(4, 25, blank());
    let mut terminal = Terminal::new(buffer, Color::White, Color::Black);
    terminal.write_ascii(b'a');
    terminal.write_ascii(b'b');
    terminal.write_ascii(b'c');
    /* Column 3 is never written: the cursor wrapped after column 2. */
    assert_eq!(b'a', terminal.buffer().char_at(0, 0).ascii);
    assert_eq!(b'b', terminal.buffer().char_at(1, 0).ascii);
    assert_eq!(b'c', terminal.buffer().char_at(2, 0).ascii);
    terminal.write_ascii(b'd');
    assert_eq!(b'd', terminal.buffer().char_at(0, 1).ascii);
}

#[test]
fn terminal_scrolls_on_the_last_row() {
    let buffer = TextBuffer::new(4, 2, blank());
    let mut terminal = Terminal::new(buffer, Color::White, Color::Black);
    terminal.write_ascii(b'a');
    terminal.write_ascii(b'\n');
    terminal.write_ascii(b'b');
    /* The cursor sits on the last row; a newline scrolls. */
    terminal.write_ascii(b'\n');
    assert_eq!(b'b', terminal.buffer().char_at(0, 0).ascii);
    assert_eq!(b' ', terminal.buffer().char_at(0, 1).ascii);
}
