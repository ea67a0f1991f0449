[package]
name = "logdash"
version = "0.1.0"
edition = "2021"
publish = false

[dependencies]
serde_json = "1"
serde = { version = "1", features = ["derive"] }
async-std = "1"
termion = "1.5"
tui = { version = "0.19", default-features = false, features = ["termion"] }
