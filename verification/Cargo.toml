[package]
name = "steering"
version = "0.1.0"
edition = "2021"
publish = false

[dependencies]
dunce = "1"
tokio = { version = "1", features = ["fs", "io-util"] }
tracing = "0.1"
