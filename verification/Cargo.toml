[package]
name = "dps150"
version = "0.1.0"
edition = "2021"
publish = false

[dependencies]
anyhow = "1"
tokio = { version = "1", features = ["io-util", "macros", "rt-multi-thread", "signal", "time"] }
tokio-serial = { version = "5", default-features = false }
