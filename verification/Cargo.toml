[package]
name = "cofoundry_crawl"
version = "0.1.0"
edition = "2021"
publish = false

[dependencies]
url = "=2.5.8"
scraper = "=0.29.0"
ego-tree = "=0.11.1"
reqwest = { version = "=0.12.28", default-features = false, features = ["rustls-tls", "gzip", "brotli", "socks"] }
base64 = "=0.22.1"
serde = { version = "=1.0.229", features = ["derive"] }
serde_json = "=1.0.154"
tokio = { version = "=1.54.1", features = ["rt-multi-thread", "macros", "io-std", "io-util", "time", "sync"] }
clap = { version = "=4.6.7", features = ["derive"] }
anyhow = "=1.0.104"
futures = "=0.3.34"
tracing = "=0.1.44"
tracing-subscriber = { version = "=0.3.23", features = ["env-filter"] }
chromiumoxide = "=0.9.1"
