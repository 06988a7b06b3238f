[package]
name = "hprobe"
version = "0.1.0"
edition = "2021"
publish = false

[dependencies]
clap = "2"
futures = "0.3"
reqwest = "0.11"
tokio = { version = "1", features = ["macros", "rt-multi-thread"] }
