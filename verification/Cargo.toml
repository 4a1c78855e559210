[package]
name = "rust_markdown_transformer"
version = "0.1.0"
edition = "2021"
publish = false

[dependencies]
zip = { version = "=2.6.1", default-features = false, features = ["deflate"] }
quick-xml = "=0.36.2"
calamine = "=0.38.0"
pulldown-cmark = { version = "=0.12.2", default-features = false }
scraper = "=0.29.0"
ego-tree = "=0.11.1"
lopdf = "=0.42.0"
pdf-extract = "=0.12.1"
chrono = { version = "=0.4.45", default-features = false, features = ["alloc", "std"] }
serde = { version = "=1.0.229", features = ["derive"] }
serde_json = "=1.0.154"
clap = { version = "=4.6.7", features = ["derive"] }
rayon = "=1.12.0"
thiserror = "=2.0.21"
