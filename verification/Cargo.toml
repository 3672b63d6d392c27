[package]
name = "oxyboard"
version = "0.2.0"
edition = "2021"
publish = false

[dependencies]
time = "*"
toml = "*"
serde = { version = "*", features = ["derive"] }
