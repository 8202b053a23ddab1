[package]
name = "webcrawl"
version = "0.1.0"
edition = "2021"
publish = false

[dependencies]
url = "2"
scraper = "0.17"
csv = "1"
rusqlite = { version = "0.29", features = ["bundled"] }
serde = { version = "1", features = ["derive"] }
tokio = { version = "1", features = ["full"] }
reqwest = { version = "0.11", default-features = false, features = ["rustls-tls"] }
axum = "0.6"
tower-http = { version = "0.4", features = ["cors"] }
structopt = "0.3"
tracing = "0.1"
tracing-subscriber = "0.3"
