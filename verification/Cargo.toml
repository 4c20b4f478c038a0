[package]
name = "rustcraft"
version = "0.1.0"
edition = "2021"
publish = false

[dependencies]
anyhow = "1"
parking_lot = "0.12"
rayon = "1"
tokio = { version = "1", features = ["rt-multi-thread", "net", "io-util", "time", "sync", "macros"] }
tracing = "0.1"
tracing-subscriber = "0.3"
uuid = { version = "1", features = ["v3"] }
