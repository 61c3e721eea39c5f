[package]
name = "trillium_bench"
version = "0.1.0"
edition = "2021"
publish = false

[dependencies]
trillium = "*"
trillium-tokio = "*"
trillium-router = "*"
trillium-rustls = "*"
trillium-quinn = "*"
trillium-compression = "*"
trillium-static = "*"
trillium-websockets = "*"
trillium-askama = "*"
trillium-proxy = "*"
askama = "*"
dashmap = "*"
deadpool-postgres = "*"
tokio-postgres = "*"
serde = { version = "*", features = ["derive"] }
sonic-rs = "*"
env_logger = "*"
log = "*"
mimalloc = "*"
num_cpus = "*"
socket2 = "*"
swansong = "*"
signal-hook = "*"
