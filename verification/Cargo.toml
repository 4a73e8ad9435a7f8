[package]
name = "command_core"
version = "0.1.0"
edition = "2021"
publish = false

[dependencies]
chrono = "*"
portable-pty = "*"
serde = { version = "*", features = ["derive"] }
serde_json = "*"
tokio = { version = "*", features = ["rt-multi-thread", "process", "time", "io-util", "sync"] }
urlencoding = "*"
