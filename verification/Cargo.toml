[package]
name = "serialized_stream"
version = "0.1.0"
edition = "2021"
publish = false

[dependencies]
actix-web = { version = "*", default-features = false }
futures = "0.3"
hex = "0.4"
pin-project = "1"
serde = "1"
serde_json = "1"
serde_utils = "*"
sqlx = { version = "*", default-features = false, features = ["postgres"] }
