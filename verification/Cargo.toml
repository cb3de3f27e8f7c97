[package]
name = "ais"
version = "0.1.0"
edition = "2021"
publish = false

[dependencies]
clap = "4"
tokio = { version = "1", features = ["fs", "io-util", "macros", "net", "rt-multi-thread"] }
