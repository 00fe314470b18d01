[package]
name = "job_dispatch"
version = "0.1.0"
edition = "2021"
publish = false

[dependencies]
uuid = { version = "=1.27.0", features = ["v4"] }
rocket = { version = "=0.5.1", features = ["json"] }
inotify = "=0.11.5"
serde = { version = "=1.0.229", features = ["derive"] }
chrono = { version = "=0.4.45", features = ["serde"] }
log = "=0.4.34"
simplelog = "=0.12.2"
reqwest = { version = "=0.13.5", default-features = false, features = ["json"] }
tokio = { version = "=1.53.2", features = ["rt-multi-thread", "macros", "time", "process"] }
