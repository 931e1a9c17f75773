[package]
name = "hyrax"
version = "0.1.0"
edition = "2021"
publish = false

[dependencies]
ark-bn254 = "=0.4.0"
ark-ec = "=0.4.2"
ark-ff = "=0.4.2"
sha3 = "=0.10.8"
rand_chacha = "=0.3.1"
rand = "=0.8.8"
