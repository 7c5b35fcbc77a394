[package]
name = "rpc"
version = "0.1.0"
edition = "2021"
publish = false

[dependencies]
chrono = "=0.4.45"
rust-lzma = "0.6"
serde = { version = "=1.0.229", features = ["derive"] }
serde_json = "=1.0.154"
clap = { version = "=4.6.7", features = ["derive"] }
tokio = { version = "=1.54.1", features = ["rt", "macros", "time", "sync", "net"] }
reqwest = "=0.11.27"
rand = "=0.8.8"
