[package]
name = "forever_addons"
version = "0.1.0"
edition = "2021"
publish = false

[dependencies]
serde = { version = "1", features = ["derive"] }
serde_json = "1"
zip = { version = "*", default-features = false, features = ["deflate"] }
scraper = "*"
time = { version = "0.3", features = ["formatting"] }
reqwest = { version = "0.12", default-features = false, features = ["rustls-tls", "stream"] }
tokio = { version = "1", features = ["rt", "rt-multi-thread", "sync", "macros"] }
futures-util = "0.3"
dirs = "*"
thiserror = "*"

[dev-dependencies]
tempfile = "*"
