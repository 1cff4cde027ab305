[package]
name = "rfb_proxy"
version = "0.1.0"
edition = "2021"
publish = false

[dependencies]
bytes = "1"
log = "0.4"
thiserror = "1"
tokio = { version = "1", features = ["rt", "net", "sync", "macros", "io-util", "time"] }
