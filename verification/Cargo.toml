[package]
name = "hoover3"
version = "0.1.0"
edition = "2021"
publish = false

[dependencies]
regex = "=1.13.1"
sha1 = "=0.10.7"
sha2 = "=0.10.9"
sha3 = "=0.10.9"
md5 = "=0.8.1"
text-splitter = { version = "=0.33.1", default-features = false }
stable-hash = "=0.4.3"
chrono = { version = "=0.4.45", default-features = false, features = ["std", "clock", "serde"] }
serde = { version = "=1.0.229", features = ["derive"] }
serde_json = "=1.0.154"
bincode = "=1.3.3"
anyhow = "=1.0.104"
log = "=0.4.35"
tracing = "=0.1.44"
tracing-log = "=0.2.0"
dioxus-logger = "=0.7.10"
buildid = "1"
