[package]
name = "module_extractor"
version = "0.1.0"
edition = "2021"
publish = false

[dependencies]
color-eyre = "*"
eyre = "*"
pdf-extract = "*"
reqwest = { version = "*", default-features = false, features = ["blocking"] }
serde = { version = "*", features = ["derive"] }
serde_json = "*"
tl = "*"
