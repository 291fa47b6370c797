[package]
name = "threshold_client"
version = "0.1.0"
edition = "2021"
publish = false

[dependencies]
threshold_crypto = "0.4"
base64 = "0.22"
bincode = "1"
serde_json = "1"
serde = { version = "1", features = ["derive"] }
clap = { version = "4", features = ["derive"] }
reqwest = { version = "0.12", default-features = false, features = ["json"] }
tokio = { version = "1", features = ["rt-multi-thread", "macros"] }

[dev-dependencies]
rand = "0.7"
