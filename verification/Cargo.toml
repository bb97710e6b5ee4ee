[package]
name = "datafusion_distributed"
version = "0.1.0"
edition = "2021"
publish = false

[dependencies]
datafusion = { version = "54.1", default-features = false }
delegate = "=0.13.5"
http = "=1.5.0"
url = "=2.5.8"
