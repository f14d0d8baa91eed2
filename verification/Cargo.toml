[package]
name = "wow_srp"
version = "0.1.0"
edition = "2021"
publish = false

[dependencies]
hmac = "0.12"
sha1 = "0.10"
rand = "0.8"

[dev-dependencies]
hex = "0.4"
