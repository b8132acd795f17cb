[package]
name = "device_notifier"
version = "0.1.0"
edition = "2021"
publish = false

[dependencies]
ring = "*"
hmac = "*"
sha2 = "*"
base64 = "*"
serde = { version = "*", features = ["derive"] }
serde_json = "*"
chrono = { version = "*", features = ["serde"] }
dirs = "*"
toml = "*"
sysinfo = "*"
reqwest = { version = "*", default-features = false, features = ["json"] }
tokio = { version = "*", features = ["rt-multi-thread", "macros", "time", "sync", "signal"] }
