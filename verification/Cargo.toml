[package]
name = "rproxy"
version = "0.1.0"
edition = "2021"
publish = false

[dependencies]
socket2 = "0.5"
tokio = { version = "1", features = ["io-util", "macros", "net", "rt-multi-thread", "sync", "time"] }
