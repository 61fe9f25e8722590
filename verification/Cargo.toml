[package]
name = "feature_probe_event"
version = "0.1.0"
edition = "2021"
publish = false

[dependencies]
serde_json = "1"
serde = { version = "1", features = ["derive"] }
parking_lot = "0.12"
ureq = "2"
url = "2"
headers = "0.3"
