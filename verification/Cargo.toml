[package]
name = "shredstream_proxy"
version = "0.3.0"
edition = "2021"
publish = false

[dependencies]
ahash = "=0.8.12"
arc-swap = "=1.9.3"
crossbeam-channel = "=0.5.17"
dashmap = "=5.5.3"
itertools = "=0.12.1"
log = "=0.4.35"
rand = "=0.8.8"
reqwest = { version = "=0.11.27", default-features = false, features = ["blocking", "rustls-tls"] }
serde_json = "=1.0.154"
solana-metrics = "=2.2.20"
solana-net-utils = "=2.2.20"
solana-perf = "=2.2.20"
solana-streamer = "=2.2.20"
tokio = { version = "=1.54.1", features = ["sync"] }
