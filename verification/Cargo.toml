[package]
name = "torrent_meta"
version = "0.1.0"
edition = "2021"
publish = false

[dependencies]
binascii = "0.1"
serde = { version = "1", features = ["derive"] }
serde_bencode = "0.2"
serde_bytes = "0.11"
serde_derive = "1"
sha1 = "0.10"
thiserror = "1"
