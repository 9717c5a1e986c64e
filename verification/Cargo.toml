[package]
name = "sysinfo-cli"
version = "0.1.0"
edition = "2021"
publish = false

[dependencies]
clap = { version = "4", features = ["derive"] }
colored = "*"
comfy-table = "*"
serde = { version = "1", features = ["derive"] }
serde_json = "1"
sysinfo = "*"
