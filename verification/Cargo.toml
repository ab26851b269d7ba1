[package]
name = "screen_recorder"
version = "0.1.0"
edition = "2021"
publish = false

[dependencies]
xxhash-rust = { version = "0.8", features = ["xxh3"] }
serde = { version = "1", features = ["derive"] }
serde_json = "1"
chrono = "0.4"
dirs = "5"
image = { version = "0.25", default-features = false, features = ["png", "jpeg"] }
