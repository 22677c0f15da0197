[package]
name = "root"
version = "0.1.0"
edition = "2021"
publish = false

[dependencies]
aes = "0.8"
base32 = "0.4"
bincode = "1.3"
clap = { version = "4", features = ["derive"] }
ctr = "0.9"
ed25519-dalek = { version = "2", features = ["rand_core", "serde"] }
env_logger = "0.11"
governor = "0.6"
log = "0.4"
rand = "0.8"
rcgen = "0.13"
ring = "0.17"
rustls = { version = "0.23", default-features = false, features = ["ring", "std", "tls12", "logging"] }
serde = { version = "1", features = ["derive"] }
time = "0.3"
tokio = { version = "1", features = ["full"] }
tokio-rustls = { version = "0.26", default-features = false, features = ["ring", "tls12", "logging"] }
