[package]
name = "file_registry"
version = "0.1.0"
edition = "2021"
publish = false

[dependencies]
cosmwasm-std = "*"
schemars = "*"
serde = { version = "*", features = ["derive"] }
