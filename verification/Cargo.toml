[package]
name = "snowhead"
version = "0.2.0"
edition = "2021"
publish = false

[dependencies]
cozy-chess = "0.3"
serde = { version = "1", features = ["derive"] }
serde_json = "1"
