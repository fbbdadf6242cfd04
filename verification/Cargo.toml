[package]
name = "rusty_fusion"
version = "0.1.0"
edition = "2021"
publish = false

[dependencies]
serde = { version = "1", features = ["derive"] }
toml = "*"
regex = "1"
tokio = { version = "1", features = ["time", "rt", "macros"] }
