[package]
name = "yaltech-tools"
version = "0.1.0"
edition = "2021"
publish = false

[dependencies]
regex = "1"
base64 = "0.22"
serde = { version = "1", features = ["derive"] }
serde_json = "1"
toml = "0.8"
anyhow = "1"
chrono = "0.4"
reqwest = { version = "0.12", default-features = false, features = ["json"] }
tokio = { version = "1", features = ["rt-multi-thread", "macros", "net", "io-util"] }
ratatui = "0.29"
crossterm = "0.28"
color-eyre = "0.6"
dotenvy = "0.15"
rusqlite = { version = "0.32", features = ["bundled"] }
pdf-extract = "0.7"
libc = "0.2"
