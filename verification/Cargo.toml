[package]
name = "dimland"
version = "0.1.0"
edition = "2021"
publish = false

[dependencies]
clap = { version = "*", features = ["derive"] }
smithay-client-toolkit = { version = "*", default-features = false }
