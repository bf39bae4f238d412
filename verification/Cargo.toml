[package]
name = "peers"
version = "0.1.0"
edition = "2021"
publish = false

[dependencies]
chrono = "=0.4.45"
parking_lot = "=0.11.2"
snow = { version = "=0.8.0", features = ["libsodium-resolver"] }
tokio = { version = "=1.54.1", features = ["io-util", "net", "rt", "sync"] }
