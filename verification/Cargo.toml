[package]
name = "icelake"
version = "0.1.0"
edition = "2021"
publish = false

[dependencies]
prometheus = { version = "*", default-features = false }
arrow-array = "*"
arrow-schema = "*"
serde = { version = "*", features = ["derive"] }
