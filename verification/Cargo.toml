[package]
name = "stract"
version = "0.1.0"
edition = "2021"
publish = false

[dependencies]
min-max-heap = "*"
flate2 = "*"
serde = { version = "*", features = ["derive"] }
toml = "*"
