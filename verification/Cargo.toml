[package]
name = "block_stats"
version = "0.1.0"
edition = "2021"
publish = false

[dependencies]
bitcoinkernel = "*"
clap = { version = "*", features = ["derive"] }
env_logger = "*"
log = "*"
rayon = "*"
