[package]
name = "rlc"
version = "0.1.0"
edition = "2021"
publish = false

[dependencies]
serde_json = "1"
log = "0.4"
chrono = "0.4"
fern = "0.6"
walkdir = "2"
wait-timeout = "0.2"
rustc_version = "0.4"
cargo_metadata = "0.14"
