[package]
name = "lookup"
version = "0.1.0"
edition = "2021"
publish = false

[dependencies]
prettytable-rs = "*"
clap = "2"
trust-dns-resolver = "*"

[dev-dependencies]
serde_json = "*"
