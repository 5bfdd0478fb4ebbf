[package]
name = "encrypted_spaces"
version = "0.1.0"
edition = "2021"
publish = false

[dependencies]
base64 = "0.22"
hkdf = "0.12"
sha2 = "0.10"
serde = { version = "1", features = ["derive"] }
serde_json = "1"
rusqlite = { version = "0.32", features = ["bundled"] }
async-trait = "0.1"
log = "0.4"
tokio = { version = "1", default-features = false, features = ["sync"] }
