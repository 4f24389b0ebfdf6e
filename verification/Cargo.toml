[package]
name = "serde_pipe"
version = "0.1.0"
edition = "2021"
publish = false

[dependencies]
bincode = "1"
serde = "1"

[dev-dependencies]
rand = "0.6"
