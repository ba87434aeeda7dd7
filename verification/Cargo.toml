[package]
name = "omir-validate"
version = "0.1.0"
edition = "2021"
publish = false

[dependencies]
clap = { version = "=4.6.7", features = ["derive"] }
jsonschema = { version = "=0.60.2", default-features = false, features = ["idna"] }
serde = { version = "=1.0.229", features = ["derive"] }
serde_json = "=1.0.154"
