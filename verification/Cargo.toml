[package]
name = "transit_feed"
version = "0.1.0"
edition = "2021"
publish = false

[dependencies]
chrono = { version = "0.4", default-features = false }
csv = "1"
zip = { version = "0.6", default-features = false, features = ["deflate"] }
reqwest = { version = "0.11", default-features = false, features = ["blocking", "rustls-tls"] }
log = "0.4"
env_logger = "0.10"
