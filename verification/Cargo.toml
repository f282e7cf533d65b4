[package]
name = "qnap"
version = "0.1.1"
edition = "2021"
publish = false

[dependencies]
base64 = "0.22"
anyhow = "1"
clap = { version = "4", features = ["derive"] }
clap_complete = "4"
dialoguer = "0.11"
dirs = "5"
owo-colors = "4"
reqwest = { version = "0.12", default-features = false, features = ["rustls-tls", "cookies", "json"] }
serde = { version = "1", features = ["derive"] }
serde_json = "1"
tokio = { version = "1", features = ["macros", "rt-multi-thread"] }
toml = "0.8"
