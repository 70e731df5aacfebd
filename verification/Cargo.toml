[package]
name = "telemetry_core"
version = "0.1.0"
edition = "2021"
publish = false

[dependencies]
serde_json = "=1.0.151"
serialport = { version = "=4.10.1", default-features = false }
tokio = { version = "=1.53.2", features = ["rt-multi-thread", "sync", "time", "io-util", "io-std", "macros"] }
