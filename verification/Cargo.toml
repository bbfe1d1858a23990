[package]
name = "npm_cdn"
version = "0.1.0"
edition = "2021"
publish = false

[dependencies]
base64-simd = "0.8"
dotenv = "0.15"
lru = "0.12"
parking_lot = "0.12"
rmp-serde = "1"
rocksdb = { version = "0.22", default-features = false }
serde = { version = "1", features = ["derive"] }
serde_json = "1"
serde_with = "3"
tokio = { version = "1", features = ["full"] }
tracing = "0.1"
warp = { version = "0.3", default-features = false, features = ["compression-gzip"] }
reqwest = { version = "0.11", default-features = false, features = ["rustls-tls"] }
