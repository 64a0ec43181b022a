[package]
name = "bangs"
version = "0.1.0"
edition = "2021"
publish = false

[dependencies]
urlencoding = "*"
curl = "*"
open = "*"
pop-launcher = "*"
serde = { version = "*", features = ["derive"] }
serde_json = "*"
tokio = { version = "*", features = ["io-std", "io-util", "rt-multi-thread", "macros"] }
tokio-stream = "*"
