[package]
name = "cat_indexer"
version = "0.1.0"
edition = "2021"
publish = false

[dependencies]
anyhow = "1"
bitcoin = { version = "0.32", features = ["serde"] }
bitcoincore-rpc = "0.19"
ciborium = "0.2"
clap = { version = "4", features = ["derive"] }
env_logger = "0.11"
log = "0.4"
plotters = { version = "0.3", default-features = false, features = ["bitmap_backend", "bitmap_encoder", "line_series"] }
serde = { version = "1", features = ["derive"] }
serde_json = "1"
sled = "0.34"
