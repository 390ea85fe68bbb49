[package]
name = "serde_deserialize_duplicates"
version = "0.1.0"
edition = "2021"
publish = false

[dependencies]
syn = "2"

[dev-dependencies]
serde = "1"
serde_json = "1"
