[package]
name = "wjsm-runtime"
version = "0.1.0"
edition = "2021"
publish = false

[dependencies]
digest = "0.10"
hmac = "0.12"
md-5 = "0.10"
sha1 = "0.10"
sha2 = "0.10"
rand = "0.8"
uuid = { version = "1", features = ["v4"] }
memchr = "2"
