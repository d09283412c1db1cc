[package]
name = "crate_spec"
version = "0.1.0"
edition = "2021"
publish = false

[dependencies]
bincode = "2"
openssl = "0.10"
toml = "0.8"
clap = { version = "4", features = ["derive"] }
