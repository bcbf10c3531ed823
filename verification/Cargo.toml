[package]
name = "relay_core"
version = "0.1.0"
edition = "2021"
publish = false

[dependencies]
siwe = "=0.6.1"
hex = "=0.4.3"
chrono = { version = "=0.4.45", default-features = false, features = ["std", "now"] }
serde_json = "=1.0.154"
sha2 = "=0.10.9"
mime_guess = "=2.0.5"
uuid = { version = "=1.29.0", features = ["v4"] }
serde = { version = "=1.0.229", features = ["derive"] }
axum = { version = "=0.8.9", default-features = false, features = ["ws", "multipart", "http1", "tokio", "json", "query"] }
axum-extra = { version = "=0.12.6", features = ["multipart"] }
tokio = { version = "=1.54.1", features = ["rt-multi-thread", "macros", "net", "fs", "io-util", "time", "sync"] }
parking_lot = "=0.12.5"
futures = "=0.3.34"
futures-util = { version = "=0.3.34", features = ["sink"] }
notify = { version = "=8.2.1", default-features = false }
config = { version = "=0.15.27", default-features = false, features = ["toml"] }
tracing = "=0.1.44"
tracing-subscriber = { version = "=0.3.23", default-features = false, features = ["fmt", "std"] }
thiserror = "=1.0.69"
async-trait = "=0.1.92"
libp2p = { version = "=0.56.0", features = ["tokio", "tcp", "plaintext", "yamux", "gossipsub", "kad", "macros", "ed25519"] }
oneshot = "=0.1.13"
