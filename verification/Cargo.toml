[package]
name = "create_bundle_monitor"
version = "0.1.0"
edition = "2021"
publish = false

[dependencies]
heed = "0.20"
serde = { version = "1", features = ["derive"] }
serde_json = "1"
solana-sdk = "2"
tokio = { version = "1", features = ["full"] }
log = "0.4"
clap = { version = "4", features = ["derive"] }
dotenvy = "0.15"
async-trait = "0.1"
rustls = { version = "0.23", default-features = false, features = ["ring", "std", "logging", "tls12"] }
