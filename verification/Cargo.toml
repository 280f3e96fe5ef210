[package]
name = "eclipse_redirect"
version = "0.1.0"
edition = "2021"
publish = false

[dependencies]
windows-sys = { version = "0.59", features = ["Win32_Foundation", "Win32_System_Memory", "Win32_System_Console", "Win32_System_LibraryLoader"] }
