[package]
name = "nitrogen"
version = "0.1.0"
edition = "2021"
publish = false

[dependencies]
rmp-serde = "*"
serde = { version = "*", features = ["derive"] }
tokio = { version = "*", features = ["rt-multi-thread", "macros", "time", "io-util", "sync"] }
tokio-util = { version = "*", features = ["codec"] }
tokio-serde = { version = "*", features = ["messagepack"] }
futures = "*"
anyhow = "*"
async-trait = "*"
s2n-quic = "*"
parking_lot = "*"
bytes = "*"
pin-project-lite = "*"
