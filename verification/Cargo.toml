[package]
name = "minesweeper_board"
version = "0.1.0"
edition = "2021"
publish = false

[dependencies]
colored = "=2.2.0"
log = "=0.4.34"
console_error_panic_hook = "=0.1.7"
web-log = "=1.0.1"
bevy = { version = "=0.7.0", default-features = false, features = ["bevy_winit", "render", "png", "x11"] }
bevy-inspector-egui = "=0.11.0"
# Not called: darling's macros switch on the `full` feature of syn 1, which
# the derive crates of bevy 0.7 use without asking for it.
darling = "=0.13.4"
