[package]
name = "netplane"
version = "0.1.0"
edition = "2021"
publish = false

[dependencies]
base64 = "=0.22.1"
hmac = "=0.12.1"
sha2 = "=0.10.9"
hex = "=0.4.3"
snow = "=0.9.6"
bincode = "=2.0.1"
anyhow = "=1.0.104"
log = "=0.4.35"
env_logger = "=0.11.11"
dotenv = "=0.15.0"
serde = { version = "=1.0.229", features = ["derive"] }
serde_json = "=1.0.154"
tokio = { version = "=1.54.1", features = ["full"] }
tokio-util = "=0.7.20"
futures-util = "=0.3.34"
tokio-tungstenite = "=0.26.2"
tungstenite = "=0.26.2"
tun = { version = "=0.7.22", features = ["async"] }
bcrypt = "*"
