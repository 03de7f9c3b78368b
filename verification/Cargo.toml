[package]
name = "shielded_core"
version = "0.1.0"
edition = "2021"
publish = false

[dependencies]
blake2b_simd = "=1.0.5"
bls12_381 = "=0.9.0"
jubjub = "=0.11.1"
ff = "=0.14.0"
group = "=0.14.0"
sapling-crypto = "=0.9.0"
zip32 = "=0.3.0"
redjubjub = "=0.9.0"
zcash_note_encryption = "=0.5.1"
groth16 = "=0.2.0"
rand = "=0.10.3"
base64 = "=0.13.1"
hex = "=0.4.3"
pirate = "=1.0.0"

[dev-dependencies]
incrementalmerkletree = { version = "=0.9.0", features = ["legacy-api"] }
