[package]
name = "rust_mai"
version = "0.1.0"
edition = "2021"
publish = false

[dependencies]
chrono = "0.4"
evdev = { version = "0.12", features = ["tokio"] }
tokio = { version = "1", features = ["rt", "rt-multi-thread", "sync", "time", "macros"] }
