[package]
name = "matugen_studio"
version = "0.1.0"
edition = "2021"
publish = false

[dependencies]
regex = "=1.13.1"
percent-encoding = "=2.3.2"
md5 = "=0.7.0"
convert_case = "=0.6.0"
serde = { version = "=1.0.229", features = ["derive"] }
serde_json = "=1.0.154"
dirs = "=5.0.1"
toml = "=0.8.23"
base64 = "=0.22.1"
sha2 = "=0.10.9"
execute = "=0.2.15"
colorsys = "=0.6.7"
palette = "=0.7.7"
image = { version = "=0.25.10", default-features = false, features = ["png", "jpeg", "webp"] }
reqwest = { version = "=0.12.28", default-features = false, features = ["blocking", "json", "rustls-tls"] }
zbus = "=5.19.0"
png = "=0.18.1"
