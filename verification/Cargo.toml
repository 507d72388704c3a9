[package]
name = "mdman"
version = "0.1.0"
edition = "2021"
publish = false

[dependencies]
anyhow = "*"
clap = { version = "*", features = ["derive"] }
dirs = "*"
notify = "*"
notify-rust = "*"
serde = { version = "*", features = ["derive"] }
serde_json = "*"
