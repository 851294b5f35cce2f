[package]
name = "deadrop"
version = "0.1.0"
edition = "2021"
publish = false

[dependencies]
anyhow = "1"
argon2 = "0.5"
axum = { version = "0.8", features = ["ws"] }
base64 = "0.22"
bytesize = "*"
chacha20poly1305 = "0.10"
chrono = "0.4"
clap = { version = "4", features = ["derive"] }
console = "*"
dashmap = "6"
flate2 = "1"
futures-util = "0.3"
getrandom = "0.3"
indicatif = "*"
libc = "0.2"
local-ip-address = "*"
mime_guess = "2"
qrcode = { version = "*", default-features = false }
rand = "0.9"
serde_json = "1"
tar = "0.4"
tempfile = "3"
tokio = { version = "1", features = ["rt-multi-thread", "macros", "net", "time", "sync", "signal", "fs", "io-util", "process"] }
tokio-util = { version = "0.7", features = ["io"] }
tower_governor = "*"
tracing-subscriber = { version = "0.3", features = ["env-filter"] }
urlencoding = "2"
uuid = { version = "1", features = ["v4"] }
zeroize = "1"
