[package]
name = "cargo2port"
version = "0.1.0"
edition = "2021"
publish = false

[dependencies]
cargo-lock = "*"
flate2 = "*"
tar = "*"
reqwest = { version = "*", default-features = false, features = ["blocking"] }
