[package]
name = "nmt_platform"
version = "0.1.0"
edition = "2021"
publish = false

[dependencies]
anyhow = "=1.0.104"
libc = "=0.2.191"
tracing = "=0.1.44"
tree-sitter = "0.25"
tree-sitter-language = "=0.1.9"
objc2 = "0.6"
objc2-foundation = "0.3"
objc2-app-kit = "0.3"
windows-sys = { version = "0.59", features = ["Win32_Foundation", "Win32_System_LibraryLoader"] }
