[package]
name = "blocking_entropy"
version = "0.1.0"
edition = "2021"
publish = false

[dependencies]
tiny-keccak = "1.5"
rand = "0.4"
futures = "0.1"
tokio-core = "0.1"
