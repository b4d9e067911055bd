[package]
name = "ab_tag_client"
version = "0.1.0"
edition = "2021"
publish = false

[dependencies]
rseip = "*"
tokio = { version = "*", features = ["rt"] }
anyhow = "*"
