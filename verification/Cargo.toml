[package]
name = "spider"
version = "0.1.0"
edition = "2021"
publish = false

[dependencies]
url = "2"
urlencoding = "2"
scraper = "*"
reqwest = { version = "*", default-features = false, features = ["blocking"] }
clap = { version = "4", features = ["derive"] }
