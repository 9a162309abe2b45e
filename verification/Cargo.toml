[package]
name = "qlaro"
version = "0.1.0"
edition = "2021"
publish = false

[dependencies]
arrow-array = "=60.1.0"
arrow-ipc = "=60.1.0"
arrow-schema = { version = "=60.1.0", features = ["serde"] }
parquet = { version = "=60.1.0", default-features = false, features = ["arrow"] }
chrono = { version = "=0.4.45", features = ["serde"] }
serde = { version = "=1.0.229", features = ["derive"] }
serde_json = "=1.0.154"
sha2 = "=0.10.9"
uuid = { version = "=1.29.0", features = ["v4", "serde"] }
