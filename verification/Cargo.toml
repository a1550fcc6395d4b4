[package]
name = "moltchain_core"
version = "0.1.0"
edition = "2021"
publish = false

[dependencies]
sha2 = "=0.10.9"
sha3 = "=0.10.9"
hex = "=0.4.3"
ed25519-dalek = "=2.2.0"
bs58 = "=0.5.1"
getrandom = "=0.3.4"
serde = { version = "=1.0.229", features = ["derive"] }
serde_json = "=1.0.154"
bincode = "=1.3.3"
chrono = "=0.4.45"
argon2 = "0.5"
aes-gcm = "0.10"
alloy-consensus = { version = "1", features = ["k256"] }
alloy-primitives = "1"
alloy-rlp = "0.3"
