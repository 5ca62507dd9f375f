[package]
name = "extra_link_discover"
version = "0.1.0"
edition = "2021"
publish = false

[dependencies]
url = "2"
scraper = "0.21"
reqwest = { version = "0.12", default-features = false, features = ["rustls-tls"] }
tokio = { version = "1", features = ["rt-multi-thread", "sync"] }
csv = "1.3"
open = "5"
