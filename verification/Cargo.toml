[package]
name = "muxdex"
version = "0.1.0"
edition = "2021"
publish = false

[dependencies]
ratatui = "0.29"
ansi-to-tui = "7"
crossterm = "0.28"
anyhow = "1"
