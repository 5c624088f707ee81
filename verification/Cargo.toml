[package]
name = "blitz_parse"
version = "0.1.0"
edition = "2021"
publish = false

[dependencies]
quick-xml = "*"
zip = "*"
docx-rs = "*"
pdf-extract = "*"
unicode-segmentation = "*"
serde = { version = "*", features = ["derive"] }
serde_json = "*"
