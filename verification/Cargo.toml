[package]
name = "harmonicon"
version = "0.1.0"
edition = "2021"
publish = false

[dependencies]
midly = "0.5"
serde = { version = "1", features = ["derive"] }
serde_json = "1"
jsonschema = { version = "*", default-features = false }
rustfft = "6"
