[package]
name = "clantool"
version = "0.1.0"
edition = "2021"
publish = false

[dependencies]
ts3-query = { version = "=0.2.3", features = ["managed"] }
toml = "=0.5.11"
serde = { version = "=1.0.229", features = ["derive"] }
chrono = "=0.4.45"
timer = "=0.2.0"
log = "=0.4.35"
mysql = "=28.0.4"
