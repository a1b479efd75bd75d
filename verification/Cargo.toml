[package]
name = "ice_frost"
version = "0.1.0"
edition = "2021"
publish = false

[dependencies]
ark-ec = "0.4"
ark-ff = "0.4"
ark-serialize = "0.4"
ark-secp256k1 = "0.4"
sha2 = "0.10"
digest = "0.10"
rand = "0.8"
zeroize = "1"
