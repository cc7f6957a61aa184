[package]
name = "lsp_client"
version = "0.1.0"
edition = "2021"

[dependencies]
anyhow = "1"
tokio = { version = "1", features = ["net", "io-util", "rt", "macros"] }
