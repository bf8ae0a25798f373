[package]
name = "ssh-go"
version = "0.1.0"
edition = "2021"
publish = false

[dependencies]
clap = { version = "4", features = ["derive"] }
colored = "2"
crossterm = "0.28"
dialoguer = "0.11"
dirs = "5"
libc = "0.2"
portable-pty = "0.8"
serde = { version = "1", features = ["derive"] }
serde_json = "1"
