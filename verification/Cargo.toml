[package]
name = "cap_history"
version = "0.1.0"
edition = "2021"
publish = false

[dependencies]
ic-kit = "*"
ic-certified-map = "*"
serde = { version = "1", features = ["derive"] }
thiserror = "1"
