[package]
name = "seocrawler"
version = "0.1.0"
edition = "2021"
publish = false

[dependencies]
url = "=2.5.8"
scraper = "=0.29.0"
quick-xml = "=0.38.4"
reqwest = { version = "=0.12.28", features = ["json"] }
tokio = { version = "=1.54.1", features = ["full"] }
serde = { version = "=1.0.229", features = ["derive"] }
csv = "=1.4.0"
headless_chrome = "=1.0.22"
