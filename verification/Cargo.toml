[package]
name = "cody_c"
version = "0.1.0"
edition = "2021"
publish = false

[dependencies]
heapless = "0.8"
crc32fast = "1"
serde = { version = "1", default-features = false, features = ["derive"] }
serde-json-core = "0.6"
bincode = "2"
futures = "0.3"
tokio = { version = "1", features = ["full"] }
tokio-util = { version = "0.7", features = ["codec"] }
embedded-io-async = "0.6"
