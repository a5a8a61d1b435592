[package]
name = "certified_assets"
version = "0.1.0"
edition = "2021"
publish = false

[dependencies]
sha2 = "=0.11.0"
base64 = "=0.23.1"
ic-cdk = "=0.20.3"
include_dir = "=0.7.4"
serde_bytes = "=0.11.19"

[dev-dependencies]
ic-certified-map = "*"
serde = "*"
serde_cbor = "*"
