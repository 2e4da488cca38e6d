[package]
name = "ipeds"
version = "0.1.0"
edition = "2021"
publish = false

[dependencies]
anyhow = "*"
async_zip = "*"
clap = { version = "*", features = ["derive"] }
deadpool-postgres = "*"
futures = "*"
reqwest = { version = "*", default-features = false, features = ["stream"] }
scraper = "*"
tempfile = "*"
tokio = { version = "*", features = ["rt-multi-thread", "macros", "fs", "io-util", "process"] }
tokio-postgres = "*"
tokio-util = { version = "*", features = ["compat"] }
which = "*"
