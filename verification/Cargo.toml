[package]
name = "awatchlog"
version = "0.1.0"
edition = "2021"
publish = false

[dependencies]
chrono = "=0.4.45"
regex = "=1.13.1"
sha1 = "=0.6.1"
serde = { version = "=1.0.229", features = ["derive"] }
serde_json = "=1.0.154"
toml = "=0.5.11"
shuteye = "=0.3.3"
rusoto_core = "=0.48.0"
rusoto_credential = "=0.48.0"
rusoto_logs = "=0.48.0"
tokio = { version = "=1.54.1", features = ["rt"] }
