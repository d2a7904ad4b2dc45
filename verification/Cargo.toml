[package]
name = "maelstrom_core"
version = "0.1.0"
edition = "2021"
publish = false

[dependencies]
tokio = { version = "*", features = ["rt-multi-thread", "macros", "sync"] }
anyhow = "*"
tracing = "*"
tracing-subscriber = "*"
