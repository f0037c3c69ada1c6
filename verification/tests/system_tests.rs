use rust_os::exit::QemuExitCode;
use rust_os::interrupts::{InterruptIndex, PIC_1_OFFSET, PIC_2_OFFSET};
use rust_os::keyboard::{clear_key_handler, decode_scancode, handle_key, set_key_handler, Key, KeyCode, KeyDecoder, KeyHandlerSlot};
use rust_os::serial::{color_framing, Color};
use rust_os::timer::{clear_timer_handler, get_tick_count, handle_tick, reset_tick_count, set_timer_handler, Timer};

#[test]
fn serial_color_codes() {
    assert_eq!(Color::Red.code(), "\x1b[31m");
    assert_eq!(Color::Green.code(), "\x1b[32m");
    assert_eq!(Color::Yellow.code(), "\x1b[33m");
    assert_eq!(Color::Blue.code(), "\x1b[34m");
    assert_eq!(Color::Magenta.code(), "\x1b[35m");
    assert_eq!(Color::Cyan.code(), "\x1b[36m");
    assert_eq!(Color::White.code(), "\x1b[37m");
    assert_eq!(Color::reset(), "\x1b[0m");
}

#[test]
fn exit_code_values() {
    assert_eq!(QemuExitCode::Success.value(), 0x10);
    assert_eq!(QemuExitCode::Failed.value(), 0x11);
}

#[test]
fn interrupt_vectors() {
    assert_eq!(PIC_1_OFFSET, 32);
    assert_eq!(PIC_2_OFFSET, 40);
    assert_eq!(InterruptIndex::Timer.as_u8(), 32);
    assert_eq!(InterruptIndex::Keyboard.as_u8(), 33);
}

#[test]
fn key_handler_slot() {
    let mut slot: KeyHandlerSlot<u32> = KeyHandlerSlot::new();
    assert_eq!(handle_key(&slot), None);
    set_key_handler(&mut slot, 7);
    assert_eq!(handle_key(&slot), Some(7));
    set_key_handler(&mut slot, 9);
    assert_eq!(handle_key(&slot), Some(9));
    clear_key_handler(&mut slot);
    assert_eq!(handle_key(&slot), None);
}

#[test]
fn timer_counts_ticks() {
    let mut timer: Timer<u8> = Timer::new();
    assert_eq!(get_tick_count(&timer), 0);
    assert_eq!(handle_tick(&mut timer), None);
    set_timer_handler(&mut timer, 5);
    assert_eq!(handle_tick(&mut timer), Some(5));
    assert_eq!(get_tick_count(&timer), 2);
    reset_tick_count(&mut timer);
    assert_eq!(get_tick_count(&timer), 0);
    clear_timer_handler(&mut timer);
    assert_eq!(handle_tick(&mut timer), None);
    assert_eq!(get_tick_count(&timer), 1);
}

#[test]
fn decoder_turns_scancodes_into_keys() {
    let mut d = KeyDecoder::new();
    assert_eq!(decode_scancode(&mut d, 0x1E), Some(Key::Unicode('a')));
    // Releasing the key gives no key press.
    assert_eq!(decode_scancode(&mut d, 0x9E), None);
    // This decoder gives Escape as its control character, not as a raw key.
    assert_eq!(decode_scancode(&mut d, 0x01), Some(Key::Unicode('\u{1b}')));
    assert_eq!(decode_scancode(&mut d, 0x1C), Some(Key::Unicode('\n')));
    // Arrow up is an extended code: 0xE0 then 0x48.
    assert_eq!(decode_scancode(&mut d, 0xE0), None);
    assert_eq!(decode_scancode(&mut d, 0x48), Some(Key::RawKey(KeyCode::ArrowUp)));
}

#[test]
fn decoder_release_codes_give_no_key() {
    let mut d = KeyDecoder::new();
    // Shift held: its press is reported as a raw key, its letters are upper case.
    assert_eq!(decode_scancode(&mut d, 0x2A), Some(Key::RawKey(KeyCode::Other)));
    assert_eq!(decode_scancode(&mut d, 0x1E), Some(Key::Unicode('A')));
    assert_eq!(decode_scancode(&mut d, 0x9E), None);
    assert_eq!(decode_scancode(&mut d, 0xAA), None);
    assert_eq!(decode_scancode(&mut d, 0x1E), Some(Key::Unicode('a')));
    // An extended release: 0xE0 then 0xC8 (arrow up let go).
    assert_eq!(decode_scancode(&mut d, 0xE0), None);
    assert_eq!(decode_scancode(&mut d, 0xC8), None);
    // After the extended pair the decoder is back to plain codes.
    assert_eq!(decode_scancode(&mut d, 0x1C), Some(Key::Unicode('\n')));
}

#[test]
fn serial_colour_framing() {
    assert_eq!(color_framing(Some(Color::Green)), ("\x1b[32m", "\x1b[0m"));
    assert_eq!(color_framing(Some(Color::Red)), ("\x1b[31m", "\x1b[0m"));
    assert_eq!(color_framing(None), ("", ""));
}
