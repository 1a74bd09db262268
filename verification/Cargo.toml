[package]
name = "memcloud"
version = "0.1.0"
edition = "2021"
publish = false

[dependencies]
anyhow = "1"
bincode = "1.3"
blake3 = { version = "1", features = ["pure"] }
chacha20poly1305 = "0.10"
clap = { version = "4", features = ["derive"] }
dashmap = "5.5"
dialoguer = "0.11"
dirs = "5"
ed25519-dalek = { version = "2", features = ["rand_core"] }
env_logger = "0.11"
hex = "0.4"
lazy_static = "1"
log = "0.4"
mdns-sd = "*"
nix = { version = "0.29", features = ["signal"] }
rand = "0.8"
rmp-serde = "1"
serde = { version = "1", features = ["derive"] }
serde_bytes = "0.11"
serde_json = "1"
sys-info = "0.9"
tokio = { version = "1", features = ["full"] }
uuid = { version = "1", features = ["v4", "serde"] }
x25519-dalek = { version = "2", features = ["static_secrets"] }
