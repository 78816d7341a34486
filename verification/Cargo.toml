[package]
name = "limusic_downloads"
version = "0.1.0"
edition = "2021"
publish = false

[dependencies]
fs2 = "0.4"
futures-util = { version = "0.3", default-features = false, features = ["std"] }
reqwest = { version = "0.12", default-features = false, features = ["stream"] }
serde = { version = "1", features = ["derive"] }
serde_json = "1"
tokio = { version = "1", default-features = false, features = ["rt", "time", "sync"] }
