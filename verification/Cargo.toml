[package]
name = "termx"
version = "0.1.0"
edition = "2021"
publish = false

[dependencies]
axum = "0.6"
maud = { version = "0.25", features = ["axum"] }
tokio = { version = "1", features = ["full"] }
tracing = "0.1"
chrono = "0.4"
uuid = { version = "1", features = ["v4"] }
lazy_static = "1"
color-eyre = "0.6"
thiserror = "1"
serde = { version = "1", features = ["derive"] }
