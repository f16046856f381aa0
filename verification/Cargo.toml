[package]
name = "nightcrow"
version = "0.1.0"
edition = "2021"
publish = false

[dependencies]
alacritty_terminal = "*"
anyhow = "1"
clap = { version = "4", features = ["derive"] }
crossterm = "*"
dirs = "*"
git2 = "*"
libc = "0.2"
notify = "*"
notify-debouncer-mini = "*"
ratatui = "*"
serde = { version = "1", features = ["derive"] }
serde_json = "1"
syntect = "*"
tracing = "0.1"
tracing-appender = "*"
tracing-subscriber = { version = "0.3", features = ["env-filter"] }

[dev-dependencies]
tempfile = "3"
