[package]
name = "gaffer"
version = "0.1.0"
edition = "2021"
publish = false

[dependencies]
regex = "1"
serde_json = "1"
serde = { version = "1", features = ["derive"] }
anyhow = "1"
chrono = "0.4"
clap = { version = "4", features = ["derive", "env"] }
colored = "2"
dialoguer = "0.11"
futures = "0.3"
ignore = "0.4"
open = "5"
reqwest = { version = "0.12", default-features = false, features = ["json", "multipart", "stream", "rustls-tls"] }
rusqlite = { version = "0.32", features = ["bundled"] }
thiserror = "1"
tokio = { version = "1", features = ["full"] }
toml = "0.8"
ureq = { version = "3", features = ["json"] }
uuid = { version = "1", features = ["v4"] }
walkdir = "2"
