[package]
name = "selfplay"
version = "0.1.0"
edition = "2021"
publish = false

[dependencies]
anyhow = "1"
futures = "0.3"
image = { version = "0.24", default-features = false, features = ["png"] }
rand = "0.8"
tap = "1"
tch = "*"
tokio = { version = "1", features = ["full"] }
unzip3 = "1"
