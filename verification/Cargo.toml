[package]
name = "powerlight"
version = "0.1.0"
edition = "2021"
publish = false

[dependencies]
fuzzy-matcher = "0.3"
dirs = "*"
walkdir = "2"
serde = { version = "1", features = ["derive"] }
