[package]
name = "steam_workshop_utility"
version = "0.1.0"
edition = "2021"
publish = false

[dependencies]
keyvalues-parser = "=0.2.4"
base64 = "=0.23.1"
aes = "=0.9.4"
cbc = "=0.2.1"
aes-gcm = "=0.11.1"
pbkdf2 = "=0.13.0"
sha1 = "=0.11.0"
chrono = { version = "=0.4.45", default-features = false, features = ["alloc", "std"] }
serde = { version = "=1.0.229", features = ["derive"] }
serde_json = "=1.0.154"
anyhow = "=1.0.104"
dirs = "=7.0.0"
open = "=5.4.5"
reqwest = { version = "=0.12.28", default-features = false, features = ["json", "rustls-tls"] }
tokio = { version = "=1.54.1", features = ["rt-multi-thread", "macros", "time"] }
rusqlite = { version = "=0.41.1", features = ["bundled", "backup"] }
