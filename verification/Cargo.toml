[package]
name = "dnsbl"
version = "0.1.0"
edition = "2021"
publish = false

[dependencies]
serde = "1"
trust-dns-resolver = { version = "0.19", features = ["dns-over-rustls"] }
