[package]
name = "don"
version = "0.1.0"
edition = "2021"
publish = false

[dependencies]
ansi-to-tui = "*"
crossterm = { version = "*", features = ["event-stream"] }
futures-util = "*"
glob = "*"
ignore = "*"
nix = { version = "*", features = ["process", "signal"] }
notify = "8"
ratatui = { version = "*", features = ["unstable-rendered-line-info"] }
regex = "*"
thiserror = "*"
tokio = { version = "*", features = ["macros", "rt", "sync", "time"] }
