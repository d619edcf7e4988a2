[package]
name = "document_parser"
version = "0.1.0"
edition = "2021"
publish = false

[dependencies]
chrono = { version = "0.4", default-features = false, features = ["clock", "std"] }
fancy-regex = "*"
sha2 = "0.10"
serde = { version = "1", features = ["derive"] }
serde_json = "1"
