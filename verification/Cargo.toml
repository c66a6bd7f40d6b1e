[package]
name = "memcached"
version = "0.1.0"
edition = "2021"
publish = false

[dependencies]
async-std = "=1.13.2"
mobc = "=0.9.0"
tokio = { version = "1", features = ["sync"] }
url = "=2.5.8"

[dev-dependencies]
byteorder = "=1.5.0"
