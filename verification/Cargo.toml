[package]
name = "firebase_rs"
version = "0.1.0"
edition = "2021"
publish = false

[dependencies]
url = "=2.5.8"
serde_json = "=1.0.151"
eventsource-client = "=0.12.2"
futures-util = "=0.3.34"
