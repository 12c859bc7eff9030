[package]
name = "steppe"
version = "0.1.0"
edition = "2021"
publish = false

[dependencies]
jiff = { version = "0.2", features = ["serde"] }
indexmap = { version = "2", features = ["serde"] }
convert_case = "*"
serde = { version = "1", features = ["derive"] }
colored_json = "*"
