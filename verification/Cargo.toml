[package]
name = "simple_http"
version = "0.1.0"
edition = "2021"
publish = false

[dependencies]
brotli = "*"
flate2 = "*"
bytes = "1"
tokio = { version = "1", features = ["io-util", "sync", "rt", "macros", "time"] }
tokio-util = { version = "0.7", features = ["io"] }
hyper = { version = "0.14", features = ["http1", "server", "stream"] }
async-compression = { version = "0.4", features = ["tokio", "gzip", "brotli"] }
async-channel = "*"
futures = "0.3"
serde = { version = "1", features = ["derive"] }
toml = "*"
clap = { version = "4", features = ["derive", "env"] }
