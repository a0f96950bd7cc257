[package]
name = "genanki_rs"
version = "0.1.0"
edition = "2021"
publish = false

[dependencies]
rusqlite = { version = "*", features = ["bundled"] }
serde_json = "*"
sha1 = "=0.10.7"
sha2 = "=0.10.9"
zip = { version = "*", default-features = false, features = ["deflate"] }
