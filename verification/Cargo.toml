[package]
name = "newtron"
version = "0.2.0"
edition = "2021"
publish = false

[dependencies]
scraper = "=0.29.0"
urlencoding = "=2.1.3"
rusqlite = { version = "=0.37.0", features = ["bundled"] }
reqwest = { version = "=0.12.28", default-features = false, features = ["json", "rustls-tls"] }
serde = { version = "=1.0.229", features = ["derive"] }
async-trait = "=0.1.92"
dirs = "=6.0.0"
notify = "=8.2.1"
walkdir = "=2.5.0"
log = "=0.4.35"
