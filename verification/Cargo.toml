[package]
name = "mqtt_actor"
version = "0.1.0"
edition = "2021"
publish = false

[dependencies]
anyhow = "1"
chrono = "0.4"
clap = { version = "3", features = ["derive", "env"] }
csv = "1"
env_logger = "0.9"
glob = "0.3"
log = "0.4"
notify = "5"
paho-mqtt = "0.12"
tokio = { version = "1", features = ["macros", "rt-multi-thread", "signal", "sync", "time"] }
