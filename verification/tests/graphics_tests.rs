use rust_os::boot_vga::{char_to_vga, scroll, str_to_vga, BootConsole};
use rust_os::pixels::{clear_screen_pixel, draw_rect, put_pixel, PixelScreen};
use rust_os::snake::{draw_pixel_text, score_text};

fn font_with_a() -> Vec<[u8; 8]> {
    let mut font = vec![[0u8; 8]; 128];
    // 'A': a top bar of the three leftmost pixels and one pixel at column 7 of row 2.
    font[65] = [0b0000_0111, 0, 0b1000_0000, 0, 0, 0, 0, 0];
    font[33] = [1, 1, 1, 1, 1, 1, 1, 1];
    font
}

#[test]
fn pixel_text_uses_glyph_bits() {
    let font = font_with_a();
    let pixels = draw_pixel_text(&font, "A", 10, 20);
    assert_eq!(pixels, vec![(10, 20), (11, 20), (12, 20), (17, 22)]);
}

#[test]
fn pixel_text_advances_nine_per_character() {
    let font = font_with_a();
    let pixels = draw_pixel_text(&font, "é!", 0, 0);
    // The accented letter is outside ASCII and draws nothing, but still takes its place.
    assert_eq!(pixels, vec![(9, 0), (9, 1), (9, 2), (9, 3), (9, 4), (9, 5), (9, 6), (9, 7)]);
    assert_eq!(draw_pixel_text(&font, "", 5, 5), vec![]);
}

#[test]
fn score_line() {
    assert_eq!(score_text(0), "Score: 0");
    assert_eq!(score_text(42), "Score: 42");
    assert_eq!(score_text(1007), "Score: 1007");
}

#[test]
fn pixels_put_and_clear() {
    let mut s = PixelScreen::new();
    assert_eq!(s.pixel(0), 0);
    put_pixel(&mut s, 5, 2, 14);
    assert_eq!(s.pixel(2 * 320 + 5), 14);
    clear_screen_pixel(&mut s, 3);
    for i in [0usize, 641, 63999] {
        assert_eq!(s.pixel(i), 3);
    }
}

#[test]
fn rect_fills_rows() {
    let mut s = PixelScreen::new();
    draw_rect(&mut s, 40, 40, 240, 120, 8);
    assert_eq!(s.pixel(40 * 320 + 40), 8);
    assert_eq!(s.pixel(40 * 320 + 279), 8);
    assert_eq!(s.pixel(40 * 320 + 280), 0);
    assert_eq!(s.pixel(159 * 320 + 100), 8);
    assert_eq!(s.pixel(160 * 320 + 100), 0);
    assert_eq!(s.pixel(39 * 320 + 100), 0);
    draw_rect(&mut s, 0, 0, 0, 5, 9);
    assert_eq!(s.pixel(0), 0);
}

#[test]
fn tile_square_at_the_corner_fits() {
    let mut s = PixelScreen::new();
    draw_rect(&mut s, 310, 190, 10, 10, 2);
    assert_eq!(s.pixel(63999), 2);
    assert_eq!(s.pixel(190 * 320 + 309), 0);
}

fn boot_screen() -> BootConsole {
    BootConsole::from_screen(vec![0x0720; 2000])
}

#[test]
fn boot_console_prints_white() {
    let mut c = boot_screen();
    str_to_vga(&mut c, "Hello, world!\nHi\nNew line!");
    assert_eq!(c.cell(0), u16::from_le_bytes([b'H', 0x0F]));
    assert_eq!(c.cell(80), u16::from_le_bytes([b'H', 0x0F]));
    assert_eq!(c.cell(160), u16::from_le_bytes([b'N', 0x0F]));
    assert_eq!(c.cursor_position(), 169);
}

#[test]
fn boot_console_writes_past_screen_before_scrolling() {
    let mut c = boot_screen();
    let fill: String = std::iter::repeat('x').take(2000).collect();
    str_to_vga(&mut c, &fill);
    assert_eq!(c.cursor_position(), 2000);
    // At exactly the end the byte goes to memory that is not shown.
    char_to_vga(&mut c, b'y');
    assert_eq!(c.cursor_position(), 2001);
    assert_eq!(c.cell(1999), u16::from_le_bytes([b'x', 0x0F]));
    // Past the end the screen scrolls and the cursor moves back only 25 cells.
    str_to_vga(&mut c, "z");
    assert_eq!(c.cursor_position(), 1977);
    assert_eq!(c.cell(1976), u16::from_le_bytes([b'z', 0x0F]));
    assert_eq!(c.cell(1999), u16::from_le_bytes([b' ', 0x0F]));
}

#[test]
fn boot_console_scroll() {
    let mut c = boot_screen();
    str_to_vga(&mut c, "\nab");
    scroll(&mut c);
    assert_eq!(c.cell(0), u16::from_le_bytes([b'a', 0x0F]));
    assert_eq!(c.cursor_position(), 57);
}

#[test]
fn boot_console_writes_past_a_newline_at_the_end() {
    let mut c = BootConsole::from_screen(vec![0x0F20u16; 2000]);
    str_to_vga(&mut c, "\n\n\n\n\n\n\n\n\n\n\n\n\n\n\n\n\n\n\n\n\n\n\n\n\n\n");
    assert_eq!(c.cursor_position(), 2080);
    char_to_vga(&mut c, b'k');
    assert_eq!(c.cursor_position(), 2081);
    for i in 0..2000 {
        assert_eq!(c.cell(i), 0x0F20);
    }
}
