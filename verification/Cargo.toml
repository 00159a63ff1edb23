[package]
name = "minecrust"
version = "0.1.0"
edition = "2021"
publish = false

[dependencies]
aes = "0.8"
flate2 = "1"
rsa = "0.9"
rand = "0.8"
tokio = { version = "1", features = ["rt-multi-thread", "net", "io-util", "signal", "sync", "macros"] }
tokio-util = { version = "0.7", features = ["rt"] }
clap = "4"
tracing = "0.1"
tracing-subscriber = { version = "0.3", features = ["env-filter"] }

[dev-dependencies]
