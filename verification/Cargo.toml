[package]
name = "chequer"
version = "0.1.0"
edition = "2021"
publish = false

[dependencies]
tokio = { version = "*", features = ["rt-multi-thread", "macros", "net", "io-util", "time", "sync"] }
clap = { version = "*", features = ["derive"] }
serde = { version = "*", features = ["derive"] }
serde_json = "*"
chrono = "*"
anyhow = "*"
libc = "*"
tracing = "*"
tracing-subscriber = "*"
