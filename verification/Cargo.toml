[package]
name = "notify_logger"
version = "0.1.0"
edition = "2021"
publish = false

[dependencies]
anyhow = "*"
chrono = "*"
image = { version = "*", default-features = false, features = ["png"] }
zbus = "*"
