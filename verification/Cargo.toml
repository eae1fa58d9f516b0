[package]
name = "omniget_telegram"
version = "0.1.0"
edition = "2021"
publish = false

[dependencies]
aes = "0.8"
anyhow = "1"
async-stream = "0.3"
axum = "0.7"
base64 = "0.22"
bytes = "1"
cipher = "0.4"
ctr = "0.9"
dirs = "5"
filetime = "0.2"
futures = "0.3"
grammers-client = "0.8"
grammers-mtsender = "0.8"
grammers-session = "0.8"
grammers-tl-types = "0.8"
os_info = "3"
qrcode = { version = "0.14", default-features = false, features = ["svg"] }
rand = "0.8"
serde = { version = "1", features = ["derive"] }
serde_json = "1"
sha2 = "0.10"
sys-locale = "0.3"
tokio = { version = "1", features = ["full"] }
tokio-util = "0.7"
tracing = "0.1"
omniget-core = "*"
omniget-plugin-sdk = "*"
