[package]
name = "asteroid_game"
version = "0.1.0"
edition = "2021"
publish = false

[dependencies]
crossterm = "0.25"
image = { version = "0.24", default-features = false, features = ["png"] }
rand = "0.8"
uuid = { version = "1", features = ["v4"] }
