[package]
name = "ghost"
version = "0.1.0"
edition = "2021"
publish = false

[dependencies]
anyhow = "*"
globset = "*"
mlua = { version = "*", features = ["lua54", "vendored", "serialize"] }
pathdiff = "*"
serde = { version = "*", features = ["derive"] }
serde_json = "*"
toml = "*"
walkdir = "*"
