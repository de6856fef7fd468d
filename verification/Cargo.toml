[package]
name = "mono"
version = "0.2.0"
edition = "2021"
publish = false

[dependencies]
clap = { version = "4", features = ["derive"] }
crossterm = "0.28"
ctrlc = "3"
libc = "0.2"
process-wrap = { version = "9", features = ["std", "process-group"] }
ratatui = "0.29"
serde = { version = "1", features = ["derive"] }
serde_json = "1"
sha2 = "0.10"
tempfile = "3"
toml = "0.8"
