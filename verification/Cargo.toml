[package]
name = "omni"
version = "0.1.0"
edition = "2021"
publish = false

[dependencies]
anyhow = "1"
crossterm = "0.28"
dirs = "5"
portable-pty = "0.8"
ratatui = "0.29"
rusqlite = { version = "0.32", features = ["bundled"] }
serde_json = "1"
tui-term = "0.2"
vt100 = "0.15"
