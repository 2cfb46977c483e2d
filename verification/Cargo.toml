[package]
name = "mc_protocol"
version = "0.1.0"
edition = "2021"
publish = false

[dependencies]
uuid = "=1.29.0"
sha1 = { version = "=0.10.7", features = ["oid"] }
sha2 = { version = "=0.10.9", features = ["oid"] }
hmac = "=0.12.1"
num-bigint = "=0.4.8"
flate2 = "=1.1.10"
aes = "=0.8.4"
cfb8 = "=0.8.1"
cipher = "=0.4.4"
serde = { version = "=1.0.229", features = ["derive"] }
serde_json = "=1.0.154"
tokio = { version = "=1.54.1", features = ["full"] }
log = "=0.4.35"
anyhow = "=1.0.104"
rand = "=0.8.8"
futures = "=0.3.34"
drax = { version = "=0.1.1", default-features = false, features = ["serde", "macros", "uuid", "nbt"] }
reqwest = { version = "=0.11.27", default-features = false, features = ["json"] }
rsa = "=0.9.10"
