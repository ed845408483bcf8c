[package]
name = "pinvio"
version = "0.1.0"
edition = "2021"
publish = false

[dependencies]
cargo_metadata = "0.20"
rustc_version = "0.4"
serde_json = "1"
wait-timeout = "0.2"
