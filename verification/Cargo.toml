[package]
name = "tari_gpu_miner"
version = "0.1.0"
edition = "2021"
publish = false

[dependencies]
anyhow = "1"
clap = { version = "4", features = ["derive"] }
cust = "0.3.2"
num-format = "0.4.4"
rand = "0.8"
sha3 = "0.10"
tari_common = "*"
tari_common_types = "*"
tari_crypto = "*"
tokio = { version = "1", features = ["rt-multi-thread", "macros", "sync", "time"] }
tonic = "*"
