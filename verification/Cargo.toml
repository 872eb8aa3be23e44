[package]
name = "svg_toolkit"
version = "0.1.0"
edition = "2021"
publish = false

[dependencies]
serde = { version = "1", features = ["derive"] }
serde_json = "1"
quick-xml = "*"
url = "2"
regex = "1"
tl = "0.7"
