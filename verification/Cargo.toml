[package]
name = "tp2p"
version = "0.1.0"
edition = "2021"
publish = false

[dependencies]
sodiumoxide = "0.2"
base64 = "0.13"
chrono = "0.4"
tokio = { version = "1", features = ["net", "rt", "macros", "io-util"] }

[dev-dependencies]
chrono = "0.4"
