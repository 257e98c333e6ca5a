[package]
name = "floyd"
version = "0.2.1"
edition = "2021"
publish = false

[dependencies]
rustc-demangle = "0.1"
serde = { version = "1", features = ["derive"] }
serde_json = "1"
