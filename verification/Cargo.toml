[package]
name = "searchrank"
version = "0.1.0"
edition = "2021"
publish = false

[dependencies]
base64 = "0.13"
chrono = "0.4"
html-escape = "0.2"
min-max-heap = "1"
serde = { version = "1", features = ["derive"] }
