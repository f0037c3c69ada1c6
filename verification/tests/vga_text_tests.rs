use rust_os::vga_text::{
    char_to_vga, clear_row, clear_screen, make_color, scroll, set_cursor, str_to_vga, write_at, TextBuffer, VgaColor,
};

fn cell(ch: u8, color: u8) -> u16 {
    u16::from_le_bytes([ch, color])
}

#[test]
fn make_color_puts_background_in_high_nibble() {
    assert_eq!(make_color(VgaColor::White, VgaColor::Black), 0x0F);
    assert_eq!(make_color(VgaColor::Black, VgaColor::Cyan), 0x30);
    assert_eq!(make_color(VgaColor::Yellow, VgaColor::Blue), 0x1E);
    assert_eq!(make_color(VgaColor::Pink, VgaColor::White), 0xFD);
}

#[test]
fn new_screen_is_blank() {
    let t = TextBuffer::new();
    assert_eq!(t.cursor_position(), 0);
    for i in 0..2000 {
        assert_eq!(t.cell(i), 0x0720);
    }
}

#[test]
fn printing_writes_and_breaks_lines() {
    let mut t = TextBuffer::new();
    str_to_vga(&mut t, "Hi\nA");
    assert_eq!(t.cell(0), cell(b'H', 0x07));
    assert_eq!(t.cell(1), cell(b'i', 0x07));
    assert_eq!(t.cell(2), 0x0720);
    assert_eq!(t.cell(80), cell(b'A', 0x07));
    assert_eq!(t.cursor_position(), 81);
}

#[test]
fn char_to_vga_advances_cursor() {
    let mut t = TextBuffer::new();
    char_to_vga(&mut t, b'z');
    assert_eq!(t.cell(0), cell(b'z', 0x07));
    assert_eq!(t.cursor_position(), 1);
}

#[test]
fn full_screen_scrolls_before_next_byte() {
    let mut t = TextBuffer::new();
    let line: String = std::iter::repeat('x').take(2000).collect();
    str_to_vga(&mut t, &line);
    assert_eq!(t.cursor_position(), 2000);
    str_to_vga(&mut t, "y");
    assert_eq!(t.cursor_position(), 1921);
    assert_eq!(t.cell(0), cell(b'x', 0x07));
    assert_eq!(t.cell(1920), cell(b'y', 0x07));
    assert_eq!(t.cell(1921), 0x0720);
    assert_eq!(t.cell(1999), 0x0720);
}

#[test]
fn newline_on_last_row_scrolls_on_next_byte() {
    let mut t = TextBuffer::new();
    set_cursor(&mut t, 24, 3);
    str_to_vga(&mut t, "\n");
    assert_eq!(t.cursor_position(), 2000);
    str_to_vga(&mut t, "q");
    assert_eq!(t.cursor_position(), 1921);
    assert_eq!(t.cell(1920), cell(b'q', 0x07));
}

#[test]
fn scroll_moves_rows_up() {
    let mut t = TextBuffer::new();
    set_cursor(&mut t, 1, 0);
    str_to_vga(&mut t, "row1");
    scroll(&mut t);
    assert_eq!(t.cell(0), cell(b'r', 0x07));
    assert_eq!(t.cell(3), cell(b'1', 0x07));
    assert_eq!(t.cell(80), 0x0720);
    assert_eq!(t.cursor_position(), 4);
}

#[test]
fn clear_screen_blanks_and_homes() {
    let mut t = TextBuffer::new();
    str_to_vga(&mut t, "abc");
    clear_screen(&mut t);
    assert_eq!(t.cursor_position(), 0);
    assert_eq!(t.cell(0), 0x0720);
}

#[test]
fn write_at_stops_at_end_of_screen() {
    let mut t = TextBuffer::new();
    write_at(&mut t, 24, 78, "abcd", 0x1F);
    assert_eq!(t.cell(1998), cell(b'a', 0x1F));
    assert_eq!(t.cell(1999), cell(b'b', 0x1F));
    assert_eq!(t.cursor_position(), 0);
}

#[test]
fn write_at_wraps_into_next_row() {
    let mut t = TextBuffer::new();
    write_at(&mut t, 0, 79, "ab", 0x0F);
    assert_eq!(t.cell(79), cell(b'a', 0x0F));
    assert_eq!(t.cell(80), cell(b'b', 0x0F));
}

#[test]
fn write_at_off_screen_does_nothing() {
    let mut t = TextBuffer::new();
    write_at(&mut t, 25, 0, "abc", 0x0F);
    write_at(&mut t, 3, 80, "abc", 0x0F);
    for i in 0..2000 {
        assert_eq!(t.cell(i), 0x0720);
    }
}

#[test]
fn clear_row_fills_one_row() {
    let mut t = TextBuffer::new();
    clear_row(&mut t, 3, 0x30);
    assert_eq!(t.cell(239), 0x0720);
    assert_eq!(t.cell(240), cell(b' ', 0x30));
    assert_eq!(t.cell(319), cell(b' ', 0x30));
    assert_eq!(t.cell(320), 0x0720);
    clear_row(&mut t, 25, 0x30);
    assert_eq!(t.cell(1999), 0x0720);
}

#[test]
fn set_cursor_places_next_byte() {
    let mut t = TextBuffer::new();
    set_cursor(&mut t, 2, 5);
    assert_eq!(t.cursor_position(), 165);
    str_to_vga(&mut t, "Q");
    assert_eq!(t.cell(165), cell(b'Q', 0x07));
}

#[test]
fn cursor_past_the_screen_writes_off_it() {
    let mut t = TextBuffer::new();
    str_to_vga(&mut t, "Top");
    set_cursor(&mut t, 30, 0);
    assert_eq!(t.cursor_position(), 2400);
    char_to_vga(&mut t, b'q');
    assert_eq!(t.cursor_position(), 2401);
    assert_eq!(t.cell(0), cell(b'T', 0x07));
    for i in 3..2000 {
        assert_eq!(t.cell(i), 0x0720);
    }
    // Each byte printed with the cursor past the screen scrolls once first.
    set_cursor(&mut t, 30, 0);
    str_to_vga(&mut t, "ab");
    assert_eq!(t.cursor_position(), 2242);
    for i in 0..2000 {
        assert_eq!(t.cell(i), 0x0720);
    }
}

#[test]
fn printing_from_the_screen_end_scrolls_and_stays_on_screen() {
    let mut t = TextBuffer::new();
    set_cursor(&mut t, 25, 0);
    str_to_vga(&mut t, "x\n");
    assert_eq!(t.cell(1920), cell(b'x', 0x07));
    assert_eq!(t.cursor_position(), 2000);
}

#[test]
fn printing_in_two_parts_equals_printing_at_once() {
    let mut t1 = TextBuffer::new();
    str_to_vga(&mut t1, "ab\n");
    str_to_vga(&mut t1, "cd");
    let mut t2 = TextBuffer::new();
    str_to_vga(&mut t2, "ab\ncd");
    assert_eq!(t1.cursor_position(), t2.cursor_position());
    for i in 0..2000 {
        assert_eq!(t1.cell(i), t2.cell(i));
    }
}
