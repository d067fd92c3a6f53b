[package]
name = "zeo"
version = "0.1.0"
edition = "2021"
publish = false

[dependencies]
quick-js = "*"
serde = { version = "1", features = ["derive"] }
serde_json = "1"
thiserror = "*"
tokio = { version = "1", features = ["sync", "rt", "macros"] }
toml = "*"
