[package]
name = "shard_churn"
version = "0.1.0"
edition = "2021"
publish = false

[dependencies]
rand = "=0.8.8"
digest = "=0.10.7"
blake2 = "=0.10.6"
histo = "=1.0.0"
