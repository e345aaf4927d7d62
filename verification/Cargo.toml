[package]
name = "csgo_entities"
version = "0.1.0"
edition = "2021"
publish = false

[dependencies]
phf = { version = "0.11", features = ["macros"] }
ahash = "0.8"
