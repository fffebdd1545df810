[package]
name = "wormhole_forward"
version = "0.1.0"
edition = "2021"
publish = false

[dependencies]
serde_json = "1"
async-std = "1"
futures = "0.3"
log = "0.4"
url = "2"
thiserror = "1"
