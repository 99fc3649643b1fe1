[package]
name = "messagelog"
version = "0.1.0"
edition = "2021"
publish = false

[dependencies]
anyhow = "=1.0.104"
chirpstack_api = "=4.20.0"
chrono = { version = "=0.4.45", features = ["serde"] }
lrwn = { version = "=4.13.0", features = ["serde"] }
paho-mqtt = "=0.12.5"
rand = "=0.8.8"
serde = { version = "=1.0.229", features = ["derive"] }
serde_json = "=1.0.154"
tokio = { version = "=1.54.1", features = ["sync"] }
tracing = "=0.1.44"
uuid = { version = "=1.29.0", features = ["serde"] }
