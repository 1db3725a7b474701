[package]
name = "rust_pubsub"
version = "0.1.0"
edition = "2021"
publish = false

[dependencies]
ws = "0.9"

[dev-dependencies]
mio = "0.6"
mio-extras = "2.0"
