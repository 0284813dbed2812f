[package]
name = "tv"
version = "0.1.0"
edition = "2021"
publish = false

[dependencies]
alacritty_terminal = "=0.26.0"
anyhow = "=1.0.104"
arboard = { version = "=3.7.0", default-features = false }
clap = { version = "=4.6.7", features = ["derive"] }
comfy-table = { version = "=7.2.2", default-features = false }
crossterm = "=0.29.0"
dirs = "=7.0.0"
libc = "=0.2.191"
mio = { version = "=1.2.4", features = ["os-poll", "os-ext"] }
portable-pty = "=0.9.0"
rand = "=0.9.5"
ratatui = "=0.30.2"
serde = { version = "=1.0.229", features = ["derive"] }
serde_json = "=1.0.154"
signal-hook = "=0.3.18"
signal-hook-mio = { version = "=0.3.0", features = ["support-v1_0"] }
tokio = { version = "=1.54.1", features = ["rt-multi-thread", "net", "io-util", "sync", "time", "signal", "macros"] }
tokio-util = "=0.7.20"
toml = "=1.1.8"
tracing = "=0.1.44"
tracing-subscriber = "=0.3.23"
