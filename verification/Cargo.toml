[package]
name = "oh_my_kiwi"
version = "0.1.0"
edition = "2021"
publish = false

[dependencies]
num-bigint = "*"
tokio = { version = "*", features = ["rt-multi-thread", "net", "io-util", "sync", "macros"] }
tracing = "*"
tracing-subscriber = "*"
