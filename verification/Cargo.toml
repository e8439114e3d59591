[package]
name = "audeep"
version = "0.1.0"
edition = "2021"
publish = false

[dependencies]
serde = { version = "1", features = ["derive"] }
serde_json = "1"
chrono = { version = "0.4", features = ["serde"] }
clap = { version = "4", features = ["derive"] }
hostname = "0.4"
rusqlite = { version = "0.31", features = ["bundled"] }
sysinfo = "0.30"
tokio = { version = "1", features = ["full"] }
