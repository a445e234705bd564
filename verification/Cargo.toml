[package]
name = "peerlink"
version = "0.1.0"
edition = "2021"
publish = false

[dependencies]
anyhow = "*"
iroh = "*"
iroh-ping = "*"
iroh-tickets = "*"
tokio = { version = "*", features = ["full"] }
