[package]
name = "discord_management"
version = "0.1.0"
edition = "2021"
publish = false

[dependencies]
serde = { version = "=1.0.229", features = ["derive"] }
serde_json = { version = "=1.0.154", features = ["preserve_order"] }
toml = "=0.9.12"
toml_edit = "=0.23.10"
tokio = { version = "=1.54.1", features = ["time", "sync", "rt", "macros"] }
serenity = { version = "=0.12.5", default-features = false, features = ["client", "gateway", "http", "model", "cache", "rustls_backend"] }
poise = { version = "=0.6.2", default-features = false }

[dev-dependencies]
validator = "=0.20.0"
