[package]
name = "r2s_server"
version = "0.1.0"
edition = "2021"
publish = false

[dependencies]
ring = "0.17"
nanoid = "0.4"
rand = "0.9"
deunicode = "1"
heck = "0.5"
regex = "1"
base64 = "0.22"
serde = { version = "1", features = ["derive"] }
serde_json = "1"
toml = "0.8"
chrono = "0.4"
tokio = { version = "1", features = ["fs", "process", "rt", "macros"] }
axum = "0.8"
anyhow = "1"
thiserror = "2"
