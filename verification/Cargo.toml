[package]
name = "venus"
version = "0.1.0"
edition = "2021"
publish = false

[dependencies]
regex = "=1.13.1"
unicode-width = "=0.2.3"
serde_json = "=1.0.154"
chrono = "=0.4.45"
bytes = "=1.12.1"
uuid = { version = "1", features = ["v4"] }
