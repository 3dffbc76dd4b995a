[package]
name = "ygrep_core"
version = "0.1.0"
edition = "2021"
publish = false

[dependencies]
chrono = "0.4"
indicatif = "0.17"
regex = "1"
serde_json = "1"
tantivy = { version = "0.22", default-features = false, features = ["mmap", "stopwords", "lz4-compression"] }
tracing = "0.1"
xxhash-rust = { version = "0.8", features = ["xxh3"] }
