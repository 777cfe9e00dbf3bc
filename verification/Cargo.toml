[package]
name = "cnctd_server"
version = "0.6.0"
edition = "2021"
publish = false

[dependencies]
anyhow = "1"
base64 = "0.22"
bytes = "1"
chrono = { version = "0.4", features = ["serde"] }
cnctd_redis = "*"
futures-util = "0.3"
hmac = "0.12"
http = "1"
jwt = "0.16"
local-ip-address = "0.6"
public-ip = "0.2"
ring = "0.17"
serde = { version = "1", features = ["derive"] }
serde_json = "1"
sha2 = "0.10"
state = "0.6"
sys-info = "0.9"
tokio = { version = "1", features = ["full"] }
uuid = { version = "1", features = ["v4", "serde"] }
warp = "0.3"
