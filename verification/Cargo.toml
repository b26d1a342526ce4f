[package]
name = "zeroclaw_sessions"
version = "0.1.0"
edition = "2021"
publish = false

[dependencies]
anyhow = "=1.0.104"
async-trait = "=0.1.92"
axum = "=0.8.9"
chrono = { version = "=0.4.45", default-features = false, features = ["alloc", "clock", "std"] }
console = "=0.16.6"
dialoguer = "=0.12.0"
parking_lot = "=0.12.5"
serde = { version = "=1.0.229", features = ["derive"] }
serde_json = "=1.0.154"
tempfile = "=3.27.0"
tokio = { version = "=1.54.1", features = ["sync", "process", "io-util", "time", "rt", "macros"] }
