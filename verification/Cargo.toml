[package]
name = "pdu_exporter"
version = "0.1.0"
edition = "2021"
publish = false

[dependencies]
axum = "0.8"
base64 = "0.22"
bcrypt = "0.17"
blake3 = { version = "1", features = ["pure"] }
getrandom = "0.3"
log = "0.4"
log4rs = "1"
reqwest = { version = "0.12", default-features = false }
serde = { version = "1", features = ["derive"] }
serde_yaml = "0.9"
tokio = { version = "1", features = ["macros", "rt-multi-thread", "signal", "net", "sync"] }
