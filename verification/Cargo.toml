[package]
name = "portguard"
version = "0.1.0"
edition = "2021"
publish = false

[dependencies]
anyhow = "1"
backoff = { version = "0.4", features = ["tokio"] }
base64 = "0.13"
blake2 = "0.10"
chacha20poly1305 = "0.9"
clap = { version = "3", features = ["derive"] }
curve25519-dalek = "4.1"
dashmap = "5"
env_logger = "0.10"
fast-socks5 = "0.8"
futures = "0.3"
log = "0.4"
memmap2 = "0.9"
object = "0.36"
rpassword = "7"
serde = { version = "1", features = ["derive"] }
snow = "0.9"
thiserror = "1"
tokio = { version = "1", features = ["full"] }
tokio-util = { version = "0.7", features = ["compat"] }
toml = "0.5"
yamux = "0.10"

[dev-dependencies]
bincode = "1.3"
