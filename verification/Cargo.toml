[package]
name = "lycan"
version = "0.1.0"
edition = "2021"
publish = false

[dependencies]
anyhow = "1"
chrono = { version = "0.4", default-features = false, features = ["std", "now", "serde"] }
clap = { version = "4", features = ["derive"] }
crossterm = "0.28"
dirs = "5"
image = { version = "0.25", default-features = false, features = ["png", "jpeg", "gif", "ico", "bmp", "webp"] }
ratatui = "0.29"
scraper = "0.20"
serde = { version = "1", features = ["derive"] }
serde_json = "1"
slug = "0.1"
ureq = "3"
url = "2"
