[package]
name = "enokiweave"
version = "0.1.0"
edition = "2021"
publish = false

[dependencies]
k256 = { version = "=0.14.0", features = ["ecdsa", "ecdh", "arithmetic"] }
sha2 = "=0.11.0"
hex = "=0.4.3"
base64 = "*"
bulletproofs = "=5.0.0"
curve25519-dalek = "=4.1.3"
merlin = "=3.0.0"
chrono = "=0.4.45"
rand_core = { version = "=0.6.4", features = ["getrandom"] }
serde = { version = "*", features = ["derive"] }
serde_json = "*"
anyhow = "*"
clap = { version = "*", features = ["derive"] }
tokio = { version = "*", features = ["rt-multi-thread", "net", "io-util", "sync", "macros", "time"] }
ark-ff = "*"
tracing = "*"
tracing-subscriber = "*"
