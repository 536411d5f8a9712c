[package]
name = "pinger"
version = "0.1.0"
edition = "2021"
publish = false

[dependencies]
clap = { version = "=4.6.7", features = ["derive"] }
file-rotate = "=0.7.6"
hickory-resolver = "=0.26.3"
humantime = "=2.4.0"
ping = "=0.10.0"
tokio = { version = "=1.53.2", features = ["full"] }
tracing = "=0.1.44"
tracing-subscriber = { version = "=0.3.23", features = ["env-filter"] }
tracing-subscriber-multi = "=0.1.0"
