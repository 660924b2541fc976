[package]
name = "easyproxy"
version = "0.1.0"
edition = "2021"
publish = false

[dependencies]
base64 = "*"
chrono = "*"
dotenvy = "*"
log = "*"
rustls = "*"
rustls-pemfile = "*"
simplelog = "*"
tokio = { version = "*", features = ["net", "io-util", "rt-multi-thread", "macros"] }
tokio-rustls = "*"
