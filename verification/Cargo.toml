[package]
name = "dscvr"
version = "0.1.0"
edition = "2021"
publish = false

[dependencies]
blake3 = "*"
chrono = "*"
memmap2 = "*"
pdf-extract = "*"
rusqlite = { version = "*", features = ["bundled"] }
tantivy = "*"

[dev-dependencies]
tempfile = "*"
