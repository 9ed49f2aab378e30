[package]
name = "lwc_store"
version = "0.1.0"
edition = "2021"
publish = false

[dependencies]
rusqlite = { version = "0.37", features = ["bundled", "backup", "blob"] }
serde_json = "1"
pulldown-cmark = { version = "0.13", default-features = false }
sha2 = "0.10"
