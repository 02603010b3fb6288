[package]
name = "restroom_tp"
version = "0.1.0"
edition = "2021"
publish = false

[dependencies]
cbor = "=0.4.1"
rust-crypto = "=0.2.36"
log = "=0.4.34"
sawtooth-sdk = "=0.5.2"
