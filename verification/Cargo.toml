[package]
name = "docread"
version = "0.1.0"
edition = "2021"
publish = false

[dependencies]
anyhow = "1"
clap = { version = "4", features = ["derive"] }
colored = "*"
docx-rs = "*"
glob = "0.3"
rayon = "1"
regex = "1"
serde_json = "1"
zip = "*"
