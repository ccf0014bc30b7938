[package]
name = "replicode"
version = "0.1.0"
edition = "2021"
publish = false

[dependencies]
anyhow = "=1.0.104"
bincode = "=1.3.3"
byteorder = "=1.5.0"
chrono = "=0.4.45"
ctrlc = "=3.5.2"
env_logger = "=0.11.11"
log = "=0.4.35"
serde = { version = "=1.0.229", features = ["derive"] }
serde_json = "=1.0.154"
wasmtime = "=44.0.3"
