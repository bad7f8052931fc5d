[package]
name = "rich_rust"
version = "0.1.0"
edition = "2021"
publish = false

[dependencies]
num-rational = "0.4"
unicode-width = "*"
fancy-regex = "*"
serde = { version = "1", features = ["derive"] }
serde_json = "1"
crossterm = "*"
