[package]
name = "bezel"
version = "0.1.0"
edition = "2021"
publish = false

[dependencies]
alacritty_terminal = "0.26"
serde = { version = "1", features = ["derive"] }
tracing = "0.1"
