[package]
name = "lan_chat"
version = "0.1.0"
edition = "2021"
publish = false

[dependencies]
base64 = "0.22"
chacha20poly1305 = "0.10"
futures = "0.3"
hex = "0.4"
hostname = "0.4"
libp2p = { version = "0.56", default-features = false, features = ["ed25519", "gossipsub", "json", "macros", "mdns", "noise", "request-response", "tcp", "tokio", "yamux"] }
mime_guess = "2"
rand = "0.8"
serde = { version = "1", features = ["derive"] }
serde_json = "1"
sha2 = "*"
tokio = { version = "1", features = ["macros", "rt", "sync"] }
