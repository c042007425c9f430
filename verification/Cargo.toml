[package]
name = "codex-launch"
version = "0.1.0"
edition = "2021"
publish = false

[dependencies]
anyhow = "1"
clap = { version = "4", features = ["derive"] }
console = "*"
crossterm = "*"
dirs = "*"
fuzzy-matcher = "0.3"
inquire = "*"
serde = { version = "1", features = ["derive"] }
serde_json = "1"
time = { version = "0.3", features = ["parsing"] }
toml = "*"
