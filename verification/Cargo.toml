[package]
name = "ferrite"
version = "0.1.0"
edition = "2021"
publish = false

[dependencies]
psl = "2"
regex = "1"
fst = "0.4"
lru = "*"
hickory-proto = "*"
argon2 = { version = "0.5", features = ["std"] }
ring = "0.17"
subtle = "2"
dashmap = "*"
x509-parser = "*"
tokio = { version = "1", features = ["full"] }
axum = "0.8"
serde = { version = "1", features = ["derive"] }
serde_json = "1"
toml = "*"
tracing = "0.1"
tracing-subscriber = { version = "0.3", features = ["env-filter"] }
anyhow = "1"
reqwest = { version = "*", default-features = false }
dirs = "*"
parking_lot = "0.12"
sysinfo = "*"
chrono = { version = "0.4", features = ["serde"] }
bytes = "1"
socket2 = "*"
hyper = { version = "1", features = ["http1", "server"] }
hyper-util = { version = "0.1", features = ["tokio", "service", "server"] }
tower-http = { version = "*", features = ["trace"] }
hickory-resolver = "*"
tokio-rustls = { version = "0.26", default-features = false, features = ["ring", "tls12"] }
