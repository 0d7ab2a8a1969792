[package]
name = "intelligent_file_deduplicator"
version = "1.0.0"
edition = "2021"
publish = false

[dependencies]
colored = "2"
rayon = "1"
regex = "1"
serde = { version = "1", features = ["derive"] }
serde_json = "1"
sha2 = "0.10"
