[package]
name = "demoreel"
version = "0.1.0"
edition = "2021"
publish = false

[dependencies]
tf-demo-parser = "*"
bitbuffer = "*"
serde = "*"
serde_json = "*"
serde_json_path = "*"
clap = { version = "*", features = ["derive"] }
