[package]
name = "cortex"
version = "0.1.0"
edition = "2021"
publish = false

[dependencies]
chrono = "*"
crossbeam-channel = "*"
dirs = "*"
docx-rs = "*"
encoding_rs = "*"
notify = "*"
pdf-extract = "*"
rusqlite = { version = "*", features = ["bundled"] }
serde = { version = "*", features = ["derive"] }
serde_json = "*"
walkdir = "*"
