[package]
name = "chess_engine"
version = "0.1.0"
edition = "2021"
publish = false

[dependencies]
rustc-hash = "*"
serde = { version = "1", features = ["derive"] }
serde_json = "1"
