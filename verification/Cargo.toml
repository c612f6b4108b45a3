[package]
name = "html-helpers"
version = "0.1.0"
edition = "2021"
publish = false

[dependencies]
scraper = "*"
ego-tree = "*"
html-escape = "*"
serde = { version = "*", features = ["derive"] }
derive_more = { version = "*", features = ["display", "from"] }
