[package]
name = "mc_blackhole"
version = "0.1.0"
edition = "2021"
publish = false

[dependencies]
anyhow = "1"
bytes = "1"
uuid = { version = "1", features = ["v4"] }
flate2 = "1"
tokio = { version = "1", features = ["full"] }
cgmath = "*"
noise = "*"
rand = "*"
fastnbt = "*"
