[package]
name = "reaper"
version = "0.1.0"
edition = "2021"
publish = false

[dependencies]
camino = "1"
clap = { version = "4", features = ["derive"] }
crossterm = "0.28"
gix = "*"
globset = "0.4"
libc = "0.2"
ratatui = "0.29"
rayon = "1"
self-replace = "1"
serde = { version = "1", features = ["derive"] }
serde_json = "1"
sha2 = "0.10"
toml = "0.8"
ureq = "2"
