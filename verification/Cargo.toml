[package]
name = "feed_notify"
version = "0.1.0"
edition = "2021"
publish = false

[dependencies]
anyhow = "*"
chrono = "*"
discord-webhook = "*"
dotenvy = "*"
html2md = "*"
reqwest = { version = "*", default-features = false }
rss = "*"
tokio = { version = "*", features = ["macros", "rt-multi-thread"] }
