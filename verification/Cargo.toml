[package]
name = "codegraph"
version = "0.1.0"
edition = "2021"
publish = false

[dependencies]
regex = "1"
serde = { version = "1", features = ["derive"] }
serde_json = "1"
toml = "0.8"
tokio = { version = "1", features = ["fs", "macros", "rt-multi-thread"] }
anyhow = "1"
