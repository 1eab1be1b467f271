[package]
name = "nalarch"
version = "0.2.1"
edition = "2021"
publish = false

[dependencies]
alpm = "*"
anyhow = "*"
portable-pty = "*"
ratatui = "*"
serde_json = "*"
tui-term = "*"
vt100 = "*"
