[package]
name = "mapgen"
version = "0.1.0"
edition = "2021"
publish = false

[dependencies]
wave-function-collapse = "*"
serde = { version = "*", features = ["derive"] }
fastrand = "*"
colored = "*"
