[package]
name = "cargo-whats-new"
version = "0.1.0"
edition = "2021"
publish = false

[dependencies]
regex = "1"
html-escape = "0.2"
serde_json = "1"
anyhow = "1"
cargo_metadata = "*"
tempfile = "3"
reqwest = { version = "0.12", default-features = false, features = ["blocking", "rustls-tls"] }
