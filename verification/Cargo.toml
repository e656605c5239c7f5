[package]
name = "minibus"
version = "0.1.0"
edition = "2021"
publish = false

[dependencies]
rand = "0.8"
zbus = "4"
async-std = { version = "1", features = ["attributes"] }
anyhow = "1"
