[package]
name = "httproxy"
version = "0.1.0"
edition = "2021"
publish = false

[dependencies]
aes-gcm = "=0.10.3"
anyhow = "=1.0.104"
axum = "=0.8.9"
base122-fast = "=0.1.4"
base64 = "=0.22.1"
bytes = "=1.12.1"
clap = { version = "=4.6.7", features = ["derive"] }
dashmap = "=6.2.1"
domain = "=0.12.3"
fst = "=0.4.7"
futures = "=0.3.34"
hkdf = "=0.12.4"
http = "=1.5.0"
httparse = "=1.10.1"
ip_network = "=0.4.1"
ip_network_table = "=0.2.0"
jsonwebtoken = { version = "=11.1.0", features = ["rust_crypto"] }
memchr = "=2.8.3"
ml-kem = "=0.3.4"
rand = "=0.10.3"
rand_distr = "=0.6.0"
serde = { version = "=1.0.229", features = ["derive"] }
serde_json = { version = "=1.0.154", features = ["preserve_order"] }
sha2 = "=0.10.9"
tokio = { version = "=1.54.1", features = ["full"] }
toml = "=1.1.8+spec-1.1.0"
tracing = "=0.1.44"
url = "=2.5.8"
uuid = { version = "=1.29.0", features = ["v4"] }
x25519-dalek = { version = "=2.0.1", features = ["static_secrets", "getrandom"] }

