[package]
name = "ags_example"
version = "0.1.0"
edition = "2021"
publish = false

[dependencies]
axum = "0.7"
csv = "1"
moka = { version = "0.12", features = ["future"] }
regex = "1"
serde = { version = "1", features = ["derive"] }
serde_json = "1"
strsim = "0.11"
tokio = { version = "1", features = ["full"] }
tower-http = { version = "0.5", features = ["trace"] }
tracing = { version = "0.1", features = ["log"] }
tracing-subscriber = "0.3"
