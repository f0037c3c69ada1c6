use rust_os::apps::{HelloWorldApp, SystemInfoApp};
use rust_os::keyboard::{Key, KeyCode};
use rust_os::menu::{draw_menu, menu_key_handler, Application, Menu, MenuState};
use rust_os::vga_text::{make_color, TextBuffer, VgaColor};

fn cell(ch: u8, color: u8) -> u16 {
    u16::from_le_bytes([ch, color])
}

fn row_text(t: &TextBuffer, row: usize, col: usize, len: usize) -> String {
    (0..len).map(|i| (t.cell(row * 80 + col + i) & 0xff) as u8 as char).collect()
}

fn sample_menu() -> Menu {
    Menu::new("Select an Application", vec!["Snake", "Hello World Demo", "System Information"])
}

#[test]
fn app_names() {
    assert_eq!(HelloWorldApp.name(), "Hello World Demo");
    assert_eq!(SystemInfoApp.name(), "System Information");
}

#[test]
fn opening_the_menu_highlights_the_first_entry() {
    let menu = sample_menu();
    let mut state = MenuState::new();
    assert!(!state.is_running());
    menu.open(&mut state);
    assert!(state.is_running());
    assert_eq!(state.selected_item(), 0);
    assert_eq!(menu.chosen(&state), None);
}

#[test]
fn menu_screen_layout() {
    let menu = sample_menu();
    let mut state = MenuState::new();
    menu.open(&mut state);
    let mut t = TextBuffer::new();
    draw_menu(&state, &mut t);
    let yellow = make_color(VgaColor::Yellow, VgaColor::Black);
    let highlight = make_color(VgaColor::Black, VgaColor::Cyan);
    let normal = make_color(VgaColor::White, VgaColor::Black);
    assert_eq!(row_text(&t, 2, 5, 21), "Select an Application");
    assert_eq!(t.cell(2 * 80 + 5), cell(b'S', yellow));
    assert_eq!(t.cell(5 * 80), cell(b' ', highlight));
    assert_eq!(t.cell(5 * 80 + 10), cell(b'S', highlight));
    assert_eq!(row_text(&t, 5, 10, 5), "Snake");
    assert_eq!(t.cell(6 * 80), cell(b' ', normal));
    assert_eq!(row_text(&t, 6, 10, 16), "Hello World Demo");
    assert_eq!(row_text(&t, 7, 10, 18), "System Information");
    assert_eq!(row_text(&t, 10, 5, 38), "Arrow Keys: Navigate  |  Enter: Select");
    assert_eq!(t.cell(8 * 80), 0x0720);
    assert_eq!(t.cursor_position(), 0);
}

#[test]
fn arrows_move_within_the_entries() {
    let menu = sample_menu();
    let mut state = MenuState::new();
    menu.open(&mut state);
    let mut t = TextBuffer::new();
    let highlight = make_color(VgaColor::Black, VgaColor::Cyan);
    menu_key_handler(&mut state, Key::RawKey(KeyCode::ArrowUp), &mut t);
    assert_eq!(state.selected_item(), 0);
    menu_key_handler(&mut state, Key::RawKey(KeyCode::ArrowDown), &mut t);
    assert_eq!(state.selected_item(), 1);
    assert_eq!(t.cell(6 * 80), cell(b' ', highlight));
    menu_key_handler(&mut state, Key::RawKey(KeyCode::ArrowDown), &mut t);
    menu_key_handler(&mut state, Key::RawKey(KeyCode::ArrowDown), &mut t);
    assert_eq!(state.selected_item(), 2);
    menu_key_handler(&mut state, Key::RawKey(KeyCode::ArrowUp), &mut t);
    assert_eq!(state.selected_item(), 1);
    assert!(state.is_running());
}

#[test]
fn enter_chooses_the_highlighted_entry() {
    let menu = sample_menu();
    let mut state = MenuState::new();
    menu.open(&mut state);
    let mut t = TextBuffer::new();
    menu_key_handler(&mut state, Key::RawKey(KeyCode::ArrowDown), &mut t);
    menu_key_handler(&mut state, Key::Unicode('x'), &mut t);
    assert!(state.is_running());
    menu_key_handler(&mut state, Key::RawKey(KeyCode::Return), &mut t);
    assert!(!state.is_running());
    assert_eq!(menu.chosen(&state), Some(1));
}

#[test]
fn newline_also_chooses() {
    let menu = sample_menu();
    let mut state = MenuState::new();
    menu.open(&mut state);
    let mut t = TextBuffer::new();
    menu_key_handler(&mut state, Key::Unicode('\n'), &mut t);
    assert_eq!(menu.chosen(&state), Some(0));
}

#[test]
fn hello_world_screen() {
    let mut t = TextBuffer::new();
    HelloWorldApp.draw(&mut t);
    assert_eq!(row_text(&t, 10, 20, 31), "Hello from the Hello World app!");
    assert_eq!(t.cell(10 * 80 + 20), cell(b'H', make_color(VgaColor::LightCyan, VgaColor::Black)));
    assert_eq!(row_text(&t, 12, 20, 34), "Press any key to return to menu...");
    assert_eq!(t.cell(12 * 80 + 20), cell(b'P', make_color(VgaColor::LightGray, VgaColor::Black)));
}

#[test]
fn system_info_screen() {
    let mut t = TextBuffer::new();
    SystemInfoApp.draw(&mut t);
    assert_eq!(row_text(&t, 2, 5, 18), "System Information");
    assert_eq!(row_text(&t, 4, 5, 18), "OS: Custom Rust OS");
    assert_eq!(row_text(&t, 5, 5, 20), "Architecture: x86_64");
    assert_eq!(row_text(&t, 6, 5, 20), "VGA Mode: 80x25 Text");
    assert_eq!(row_text(&t, 10, 5, 34), "Press any key to return to menu...");
    assert_eq!(t.cell(10 * 80 + 5), cell(b'P', make_color(VgaColor::DarkGray, VgaColor::Black)));
}
