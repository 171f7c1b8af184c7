[package]
name = "chess"
version = "0.1.0"
edition = "2021"
publish = false

[dependencies]
serde = { version = "1", features = ["derive"] }
tabled = "*"
thiserror = "*"
anyhow = "1"
dirs = "*"
tracing = "0.1"
tracing-subscriber = "0.3"
