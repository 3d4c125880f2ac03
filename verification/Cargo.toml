[package]
name = "arxiv_mcp"
version = "0.1.0"
edition = "2021"
publish = false

[dependencies]
scraper = "*"
urlencoding = "*"
reqwest = { version = "0.12", default-features = false, features = ["rustls-tls"] }
rmcp = { version = "*", features = ["server", "macros", "transport-io"] }
schemars = "*"
serde = { version = "1", features = ["derive"] }
serde_json = "1"
tokio = { version = "1", features = ["macros", "rt-multi-thread", "io-std", "sync"] }
tracing = "0.1"
thiserror = "*"
