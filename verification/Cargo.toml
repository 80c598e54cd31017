[package]
name = "loona"
version = "0.1.0"
edition = "2021"
publish = false

[dependencies]
memmap2 = "=0.9.12"
memchr = "=2.8.3"
thiserror = "=1.0.69"
fluke-hpack = "=0.3.1"
http = "=1.5.0"
serde = { version = "1", features = ["derive"] }
serde_json = "1"
