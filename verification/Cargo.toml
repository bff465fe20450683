[package]
name = "ryguessr"
version = "0.1.0"
edition = "2021"
publish = false

[dependencies]
rand = "0.9"
uuid = { version = "1", features = ["v4"] }
anyhow = "1"
axum = "0.8"
axum-extra = { version = "0.10", features = ["cookie"] }
tokio = { version = "1", features = ["full"] }
tokio-stream = { version = "0.1", features = ["sync"] }
futures-util = "0.3"
pin-project = "1"
serde = { version = "1", features = ["derive"] }
serde_json = "1"
dotenvy = "0.15"
envy = "0.4"
tracing = "0.1"
tracing-subscriber = { version = "0.3", features = ["env-filter"] }
tower-http = { version = "0.6", features = ["fs", "trace"] }
reqwest = { version = "0.12", default-features = false, features = ["json", "rustls-tls"] }
memmap2 = "0.9"
log = "0.4"
strum = { version = "0.27", features = ["derive"] }
derive_more = { version = "2", features = ["as_ref", "deref"] }
