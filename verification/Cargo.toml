[package]
name = "orbitmail"
version = "0.1.0"
edition = "2021"
publish = false

[dependencies]
chrono = "0.4"
mailparse = "*"
regex = "1"
url = "2"
serde_json = "1"
serde = { version = "1", features = ["derive"] }
imap = "2"
imap-proto = "0.10"
native-tls = "0.2"
rusqlite = { version = "*", features = ["bundled"] }
tokio = { version = "1", features = ["rt-multi-thread", "sync", "time", "macros"] }
reqwest = { version = "0.12", features = ["json"] }
once_cell = "1"
log = "0.4"
futures = "0.3"
dotenvy = "0.15"
