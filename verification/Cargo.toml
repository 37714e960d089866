[package]
name = "arxiv_cli"
version = "0.1.0"
edition = "2021"
publish = false

[dependencies]
urlencoding = "*"
anyhow = "*"
clap = { version = "*", features = ["derive"] }
directories = "*"
pdf-extract = "*"
reqwest = { version = "*", default-features = false, features = ["blocking"] }
serde = { version = "*", features = ["derive"] }
serde_json = "*"
tempfile = "*"
tungstenite = "*"
