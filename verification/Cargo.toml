[package]
name = "proton_drive_rs"
version = "0.1.0"
edition = "2021"
publish = false

[dependencies]
async-trait = "0.1"
base64 = "0.22"
bytes = "1"
futures = "0.3"
getrandom = "*"
hex = "0.4"
hmac = "*"
lru = "*"
serde = { version = "1", features = ["derive"] }
serde_json = "1"
sha1 = "*"
sha2 = "*"
tokio = { version = "1", features = ["rt", "sync", "time", "macros", "io-util"] }
tracing = "0.1"
