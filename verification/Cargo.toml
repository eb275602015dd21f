[package]
name = "grindlewald"
version = "0.1.0"
edition = "2021"
publish = false

[dependencies]
sha2 = "0.10"
serde = { version = "1", features = ["derive"] }
serde_json = "1"
tokio = { version = "1", features = ["full"] }
clap = { version = "4", features = ["derive"] }
anyhow = "1"
chrono = "0.4"
fastrand = "2"
dirs = "*"
libc = "0.2"
futures = "0.3"
uuid = "1"
btleplug = "0.11"
