[package]
name = "based_scrapper"
version = "0.1.0"
edition = "2021"
publish = false

[dependencies]
scraper = "*"
regex = "*"
unidecode = "*"
titlecase = "*"
twox-hash = "1"
serde_json = "*"
serde = "1"
serde_derive = "1"
reqwest = { version = "0.12", default-features = false, features = ["json", "gzip", "rustls-tls"] }
tokio = { version = "1", features = ["macros", "rt-multi-thread"] }
futures = "0.3"
anyhow = "1"
