[package]
name = "whale_land"
version = "0.1.0"
edition = "2021"
publish = false

[dependencies]
hmac = "0.12"
sha1 = "0.10"
sha2 = "0.10"
clap = { version = "4", features = ["derive"] }
sxd-document = "0.3"
tokio = { version = "1", features = ["net", "sync", "rt", "macros", "io-util"] }
libc = "0.2"
