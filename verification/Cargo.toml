[package]
name = "eru"
version = "0.1.0"
edition = "2021"
publish = false

[dependencies]
colorsys = "*"
iced = { version = "0.3", features = ["image", "tokio"] }
iced_native = "0.4"
itertools = "*"
ron = "*"
serde = { version = "1", features = ["derive"] }
serde_json = "1"
