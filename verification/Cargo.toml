[package]
name = "front_run_vanilla"
version = "0.1.0"
edition = "2021"
publish = false

[dependencies]
anyhow = "*"
clap = { version = "*", features = ["derive"] }
dotenv = "*"
futures-util = "*"
hex = "*"
hmac = "*"
rand = "*"
reqwest = { version = "*", default-features = false, features = ["json", "rustls-tls"] }
rust_decimal = "*"
serde = { version = "*", features = ["derive"] }
serde_json = "*"
sha2 = "*"
tokio = { version = "*", features = ["full"] }
tokio-tungstenite = "*"
toml = "*"
tracing = "*"
tracing-subscriber = { version = "*", features = ["env-filter", "json"] }
