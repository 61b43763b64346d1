[package]
name = "groth16_batch"
version = "0.1.0"
edition = "2021"
publish = false

[dependencies]
bls12_381 = "=0.9.0"
sp1-verifier = "=6.8.1"
sha2 = "=0.11.0"
sha3 = "=0.12.0"
borsh = { version = "=1.8.1", features = ["derive"] }
