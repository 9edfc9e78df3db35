[package]
name = "io_plugin"
version = "0.1.0"
edition = "2021"
publish = false

[dependencies]
rand = "*"
tokio = { version = "*", features = ["process", "io-util", "io-std", "sync", "rt", "rt-multi-thread", "macros"] }
