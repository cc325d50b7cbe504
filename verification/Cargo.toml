[package]
name = "ruv_monitor"
version = "0.1.0"
edition = "2021"
publish = false

[dependencies]
serde_json = "*"
reqwest = { version = "*", default-features = false }
tokio = { version = "*", default-features = false, features = ["macros", "rt", "time"] }
csv = "*"
chrono = "*"
