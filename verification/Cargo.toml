[package]
name = "lapce_plugin"
version = "0.1.0"
edition = "2021"
publish = false

[dependencies]
anyhow = "=1.0.104"
flate2 = "=1.1.10"
http = "=0.2.12"
serde = { version = "=1.0.229", features = ["derive"] }
serde_json = "=1.0.151"
tar = "=0.4.46"
wasi-experimental-http = "=0.10.0"

[dev-dependencies]
