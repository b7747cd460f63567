[package]
name = "sidekiq"
version = "0.1.0"
edition = "2021"
publish = false

[dependencies]
rand = "*"
time = "*"
futures = "*"
redis = { version = "*", features = ["connection-manager", "tokio-comp"] }

[dev-dependencies]
serde_json = "*"
