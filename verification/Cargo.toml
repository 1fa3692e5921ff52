[package]
name = "rgb_armor"
version = "0.1.0"
edition = "2021"
publish = false

[dependencies]
anyhow = "*"
ascii85 = "*"
base64 = "*"
clap = { version = "*", features = ["derive"] }
glob = "*"
serde = { version = "*", features = ["derive"] }
serde_json = "*"
z85 = "*"
