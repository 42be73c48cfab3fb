[package]
name = "capacity_watchdog"
version = "0.1.0"
edition = "2021"
publish = false

[dependencies]
dirs = "*"
tokio = { version = "1", features = ["fs", "time", "rt", "sync"] }
