[package]
name = "debscraper"
version = "0.1.0"
edition = "2021"
publish = false

[dependencies]
url = "2"
sha1 = "0.6"
tokio = { version = "1", features = ["rt-multi-thread", "macros", "sync", "time"] }
reqwest = { version = "0.12", default-features = false }
tempfile = "3"
chrono = { version = "0.4", default-features = false, features = ["clock"] }
