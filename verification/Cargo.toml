[package]
name = "rneovim_core"
version = "0.1.0"
edition = "2021"
publish = false

[dependencies]
unicode-width = "*"
regex = "*"
serde = { version = "1", features = ["derive"] }
serde_json = "1"
rmp-serde = "*"
terminal_size = "*"
chrono = "*"
dirs = "*"
