[package]
name = "blawg"
version = "0.1.0"
edition = "2021"
publish = false

[dependencies]
hmac = "0.7"
sha2 = "0.8"
serde = { version = "1", features = ["derive"] }
serde_json = "1"
reqwest = { version = "0.12", default-features = false, features = ["blocking", "json"] }
structopt = "0.3"
tempfile = "3"
