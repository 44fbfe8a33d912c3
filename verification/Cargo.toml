[package]
name = "cargo_frequent"
version = "0.1.0"
edition = "2021"
publish = false

[dependencies]
ascii-dag = "=0.9.1"
serde = { version = "=1.0.229", features = ["derive"] }
serde_json = "=1.0.154"
