[package]
name = "p2000"
version = "0.1.0"
edition = "2021"
publish = false

[dependencies]
anyhow = "1"
chrono = "0.4"
crossterm = "0.28"
csv = "1"
ratatui = "0.29"
regex = "1"
thiserror = "1"
tokio = { version = "1", features = ["macros", "rt-multi-thread", "io-util", "io-std"] }
