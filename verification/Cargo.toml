[package]
name = "cargo_x"
version = "0.1.0"
edition = "2021"
publish = false

[dependencies]
anyhow = "1"
dirs = "5"
serde_json = "1"
toml = "0.8"
