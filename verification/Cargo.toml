[package]
name = "ken_core"
version = "0.1.0"
edition = "2021"
publish = false

[dependencies]
ignore = "=0.4.34"
twox-hash = "=2.1.5"
uuid = { version = "=1.29.0", features = ["v4"] }
serde = { version = "=1.0.229", features = ["derive"] }
serde_json = "=1.0.154"
serde_yaml = "=0.9.34"
similar = "2"
ureq = "2"
dirs = "5"
hound = "3"
