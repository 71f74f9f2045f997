[package]
name = "crossterm"
version = "0.14.0"
edition = "2021"
publish = false

[dependencies]
crossterm_utils = "0.4"
crossterm_winapi = "0.5"
lazy_static = "1"
libc = "0.2"
mio = "0.6"
signal-hook = { version = "0.1", features = ["mio-support"] }
winapi = { version = "0.3", features = ["winuser", "wincon", "synchapi", "handleapi", "winbase", "winnt", "winerror", "minwindef"] }
