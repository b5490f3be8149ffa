[package]
name = "markx"
version = "0.1.0"
edition = "2021"
publish = false

[dependencies]
ecdsa = "0.16"
hkdf = "0.12"
hmac = "0.12"
p256 = { version = "0.13", features = ["ecdsa"] }
pqcrypto-mlkem = "=0.1.0"
pqcrypto-traits = "0.3"
rand = "0.8"
sha2 = "0.10"
