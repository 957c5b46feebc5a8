[package]
name = "ledger_sync"
version = "0.1.0"
edition = "2021"
publish = false

[dependencies]
rand = "*"
chrono = "*"
local-ip-address = "*"
serde = { version = "*", features = ["derive"] }
serde_json = "*"
tiny_http = "*"
rusqlite = { version = "*", features = ["bundled"] }
walkdir = "*"
zip = "*"
