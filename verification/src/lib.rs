//! A small x86 operating system's logic, verified: the snake game, the text console
//! and graphics screen, the menu and its applications, the keyboard and timer handler
//! slots, the boot frame allocator and the pseudo-random generator; with the `wc` tool's
//! counting and the slice-splitting demo.

pub mod apps;
pub mod boot_vga;
pub mod exit;
pub mod interrupts;
pub mod keyboard;
pub mod memory;
pub mod menu;
pub mod palette;
pub mod pixels;
pub mod random;
pub mod serial;
pub mod snake;
pub mod split;
pub mod timer;
pub mod vga_text;
pub mod wc;
