[package]
name = "decompressor"
version = "0.1.0"
edition = "2021"
publish = false

[dependencies]
async-compression = { version = "0.4", features = ["tokio", "gzip", "brotli"] }
axum = "0.8"
dotenvy = "0.15"
futures-util = "0.3"
reqwest = { version = "0.12", default-features = false, features = ["stream"] }
tokio = { version = "1", features = ["macros", "rt-multi-thread", "net", "io-util", "time"] }
tokio-util = { version = "0.7", features = ["io"] }
