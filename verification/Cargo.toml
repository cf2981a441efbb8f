[package]
name = "p2p_chat"
version = "0.1.0"
edition = "2021"
publish = false

[dependencies]
base64 = "0.22"
rand = "0.8"
anyhow = "1"
tokio = { version = "1", features = ["full"] }
