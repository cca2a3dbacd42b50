[package]
name = "toxo"
version = "0.1.0"
edition = "2021"
publish = false

[dependencies]
chrono = "*"
duckdb = "*"
maxminddb = "*"
serde = "*"
serde_yaml = "*"
ua-parser = "*"
url = "*"
