[package]
name = "simulation_taps_tt"
version = "0.1.0"
edition = "2021"
publish = false

[dependencies]
aes-gcm = "0.10"
bincode = "1.3"
futures = "0.3"
rand = "0.8"
secp256k1 = { version = "0.31", features = ["rand", "serde", "std"] }
serde = { version = "1", features = ["derive"] }
sha2 = "0.10"
tokio = { version = "1", features = ["io-util", "macros", "net", "rt-multi-thread", "time"] }
