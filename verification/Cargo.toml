[package]
name = "lightyear"
version = "0.1.0"
edition = "2021"
publish = false

[dependencies]
anyhow = "1"
bevy = { version = "0.12", default-features = false }
metrics = "0.21"
serde = { version = "1", features = ["derive"] }
tracing = "0.1"
