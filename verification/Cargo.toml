[package]
name = "wstcpproxy"
version = "0.1.0"
edition = "2021"
publish = false

[dependencies]
sha1_smol = "*"
base64 = "*"
anyhow = "*"
tokio = { version = "*", features = ["full"] }
fastwebsockets = "*"
