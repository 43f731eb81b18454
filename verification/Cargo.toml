[package]
name = "venv_locator"
version = "0.1.0"
edition = "2021"
publish = false

[dependencies]
colored = "2"
rayon = "1"
serde = { version = "1", features = ["derive"] }
toml = "0.8"
walkdir = "2"
