[package]
name = "rust_os"
version = "0.1.0"
edition = "2021"
publish = false

[dependencies]
bootloader = { version = "=0.9.35", features = ["map_physical_memory"] }
pc-keyboard = "=0.8.0"
pic8259 = "=0.11.0"
spin = "=0.9.9"
uart_16550 = "=0.3.2"
x86_64 = { version = "=0.15.5", default-features = false, features = ["instructions"] }
vga = "=0.2.9"
