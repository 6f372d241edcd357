[package]
name = "preflightx"
version = "0.1.0"
edition = "2021"
publish = false

[dependencies]
serde = { version = "=1.0.229", features = ["derive"] }
serde_json = "=1.0.154"
json5 = "=1.3.7"
flate2 = "=1.1.10"
tar = "=0.4.46"
zip = { version = "=9.2.2", default-features = false, features = ["deflate"] }
sha2 = "=0.11.1"
base64 = "=0.23.1"
infer = "=0.22.0"
ureq = "=3.5.1"
libc = "=0.2.191"
gix = { version = "=0.90.0", default-features = false, features = ["revision"] }
