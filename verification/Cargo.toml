[package]
name = "nexus"
version = "0.1.0"
edition = "2021"
publish = false

[dependencies]
rand = "0.9"
dirs = "6"
crossterm = "0.28"
ratatui = "0.29"
tachyonfx = "0.11"
ansi-to-tui = "7"
rusqlite = "0.32"
serde = { version = "1", features = ["derive"] }
serde_json = "1"
toml = "0.8"
clap = { version = "4", features = ["derive"] }
color-eyre = "0.6"
uuid = { version = "1", features = ["v4"] }
fslock = "0.2"
libc = "0.2"
wait-timeout = "0.2"
base64 = "0.22"

[dev-dependencies]
tempfile = "3"
