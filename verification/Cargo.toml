[package]
name = "ogham"
version = "0.1.0"
edition = "2021"
publish = false

[dependencies]
regex = "1"
quick-xml = "0.37"
zhconv = "0.3"
base64 = "0.22"
zip = { version = "2", default-features = false, features = ["deflate"] }
epub = "2.1"
reqwest = { version = "0.12", default-features = false, features = ["blocking", "rustls-tls"] }
serde = { version = "1", features = ["derive"] }
serde_json = "1"
