[package]
name = "lattice"
version = "0.1.0"
edition = "2021"
publish = false

[dependencies]
blake3 = "1"
serde = { version = "1", features = ["derive"] }
serde_json = "1"
bincode = "1"
parking_lot = "0.12"
tokio = { version = "1", features = ["rt-multi-thread", "time", "net", "macros", "io-util", "sync"] }
