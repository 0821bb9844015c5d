[package]
name = "yf_quote"
version = "0.1.0"
edition = "2021"
publish = false

[dependencies]
serde_json = "*"
scraper = "*"
serde = { version = "*", features = ["derive"] }
clap = { version = "*", features = ["derive"] }
tokio = { version = "*", features = ["macros", "rt-multi-thread"] }
reqwest = { version = "*", default-features = false, features = ["rustls-tls"] }
futures = "*"
