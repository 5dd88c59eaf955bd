[package]
name = "evnt"
version = "0.1.0"
edition = "2021"
publish = false

[dependencies]
rand = "0.8"
anyhow = "1"

[dev-dependencies]
chrono = "0.4"
