[package]
name = "trojan_rs"
version = "0.1.0"
edition = "2021"
publish = false

[dependencies]
async-trait = "0.1"
base64 = "=0.22.1"
boring = "=5.4.0"
bytes = "=1.12.1"
clap = "=4.6.7"
env_logger = "0.11"
futures-core = "0.3"
futures-util = { version = "0.3", features = ["sink"] }
h2 = "=0.4.20"
http = "=1.5.0"
httparse = "=1.10.1"
httpdate = "=1.0.3"
log = "0.4"
rustls = "=0.23.46"
rustls-pemfile = "2"
rustls-pki-types = "1"
serde = { version = "1", features = ["derive"] }
serde_json = "1"
tokio = { version = "=1.54.1", features = ["full"] }
tokio-boring = "=5.3.0"
tokio-rustls = "=0.26.6"
tokio-tungstenite = "=0.28.0"
toml = "0.9"
uuid = "=1.29.0"
webpki-root-certs = "1"
x25519-dalek = { version = "=2.0.1", features = ["static_secrets"] }

[dev-dependencies]
aws-lc-rs = "=1.19.0"
