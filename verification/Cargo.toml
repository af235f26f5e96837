[package]
name = "zlink"
version = "0.1.0"
edition = "2021"
publish = false

[dependencies]
itoa = "=1.0.18"
ryu = "=1.0.23"
serde = { version = "=1.0.229", features = ["derive"] }
serde_json = "=1.0.154"
winnow = "0.7"
