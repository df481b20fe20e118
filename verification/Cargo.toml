[package]
name = "object_store"
version = "0.1.0"
edition = "2021"
publish = false

[dependencies]
percent-encoding = "2"
base64 = "0.21"
sha2 = "0.10"
chrono = { version = "0.4", default-features = false, features = ["std"] }
quick-xml = "0.30"
reqwest = { version = "0.11", default-features = false }
async-trait = "0.1"
parking_lot = "0.12"
bytes = "1"
