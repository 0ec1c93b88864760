[package]
name = "zvote_core"
version = "0.1.0"
edition = "2021"
publish = false

[dependencies]
pasta_curves = "=0.5.2"
orchard = "=0.14.0"
incrementalmerkletree = "=0.8.2"
bech32 = "=0.8.1"
blake2b_simd = "=1.0.5"
bip0039 = "=0.14.2"
zcash_address = "=0.14.0"
hex = "=0.4.3"
subtle = "=2.6.1"
anyhow = "=1.0.104"
serde_json = "=1.0.154"
rand_core = "=0.6.4"
