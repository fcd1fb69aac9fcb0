[package]
name = "yeoheng"
version = "0.1.0"
edition = "2021"
publish = false

[dependencies]
regex = "1"
rust-argon2 = "*"
serde = { version = "1", features = ["derive"] }
serde_json = "1"
jsonwebtoken = "*"
chrono = "*"
