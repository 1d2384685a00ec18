[package]
name = "impact_tracing"
version = "0.1.0"
edition = "2021"
publish = false

[dependencies]
aes = "0.8"
aes-gcm = "0.10"
base64 = "0.21"
sha3 = "0.10"
tiny-keccak = { version = "2.0", features = ["kmac"] }
rand = "0.8"
redis = "0.23"
petgraph = "0.6"
probability = "0.20"
serde = { version = "1", features = ["derive"] }
dotenv = "0.15"
