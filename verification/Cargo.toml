[package]
name = "sigmarift"
version = "0.1.0"
edition = "2021"
publish = false

[dependencies]
crossterm = "*"
libc = "*"
ratatui = "*"
serde = { version = "*", features = ["derive"] }
serde_json = "*"
tui-markdown = "*"
tui-textarea = "*"
unicode-width = "*"
