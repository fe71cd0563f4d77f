[package]
name = "cal_pipeline"
version = "0.1.0"
edition = "2021"
publish = false

[dependencies]
blake3 = "*"
chrono = "*"
chrono-tz = "*"
ical = "*"
uuid = { version = "*", features = ["v4"] }
serde = { version = "*", features = ["derive"] }
serde_json = "*"
anyhow = "*"
bytes = "*"
backoff = { version = "*", features = ["tokio"] }
tokio = { version = "*", features = ["macros", "rt-multi-thread"] }
reqwest = { version = "*", default-features = false }
