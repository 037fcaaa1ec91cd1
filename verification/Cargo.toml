[package]
name = "chatrelay"
version = "0.1.0"
edition = "2021"
publish = false

[dependencies]
regex = "*"
num-prime = "*"
serde = { version = "*", features = ["derive"] }
serde_json = "*"
