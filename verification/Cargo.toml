[package]
name = "field_codecs"
version = "0.1.0"
edition = "2021"
publish = false

[dependencies]
serde = "1"
chrono = "0.4"

[dev-dependencies]
hex = "0.4"
