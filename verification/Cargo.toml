[package]
name = "marmot_app"
version = "0.1.0"
edition = "2021"
publish = false

[dependencies]
hex = "=0.4.3"
sha2 = "=0.10.9"
nostr = { version = "0.44", features = ["std", "nip04", "nip44", "nip59"] }
serde = { version = "1", features = ["derive"] }
serde_json = "1"
rusqlite = "=0.41.1"
tokio = { version = "1", features = ["rt", "time", "sync", "macros"] }
futures = "0.3"
