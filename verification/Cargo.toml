[package]
name = "axis"
version = "0.1.0"
edition = "2021"
publish = false

[dependencies]
base64 = "0.13"
chrono = "0.4"
clap = "2"
diesel = { version = "1.4", features = ["sqlite", "r2d2", "chrono"] }
env_logger = "0.7"
log = "0.4"
serde = { version = "1", features = ["derive"] }
serde_json = "1"
tera = "1"
toml = "0.5"
uuid = { version = "0.8", features = ["v4"] }
zmq = "0.10"
