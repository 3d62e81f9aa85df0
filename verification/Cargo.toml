[package]
name = "blaze_api"
version = "0.1.0"
edition = "2021"
publish = false

[dependencies]
rand = "*"
serde_json = "*"
serde = { version = "*", features = ["derive"] }
clap = { version = "*", features = ["derive"] }
console = "*"
futures = "*"
governor = "*"
indicatif = "*"
parking_lot = "*"
reqwest = { version = "*", default-features = false, features = ["json", "gzip", "brotli"] }
thiserror = "*"
tokio = { version = "*", features = ["rt-multi-thread", "macros", "fs", "io-util", "time", "sync"] }
tracing = "*"
tracing-subscriber = { version = "*", features = ["env-filter", "json", "fmt"] }
