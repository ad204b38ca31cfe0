[package]
name = "tokenizer_aligner"
version = "0.1.0"
edition = "2021"
publish = false

[dependencies]
tokenizers = { version = "*", features = ["http"] }
serde = { version = "1", features = ["derive"] }
serde_json = "1"
