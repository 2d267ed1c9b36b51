[package]
name = "localagent"
version = "0.1.0"
edition = "2021"
publish = false

[dependencies]
serde = { version = "1", features = ["derive"] }
serde_json = "1"
scraper = "*"
chrono = { version = "0.4", default-features = false, features = ["clock", "std"] }
reqwest = { version = "0.12", default-features = false, features = ["json", "stream", "rustls-tls"] }
tokio = { version = "1", features = ["fs", "io-util", "time", "rt", "macros"] }
futures-util = "0.3"
anyhow = "1"
zip = { version = "*", default-features = false, features = ["deflate"] }
open = "*"
