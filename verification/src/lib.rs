//! Verification of Groth16 zero-knowledge proofs over BLS12-381, and
//! batching of many such verifications into one all-or-nothing outcome.
//!
//! The crate is organised leaves-first: byte-level base-field arithmetic,
//! affine curve points and their negation, the compressed point codec, the
//! public-input accumulator, the pairing equation, and finally the single
//! proof and batch verifiers.

pub mod bytes_be;
pub mod errors;
pub mod point;
pub mod codec;
pub mod curve;
pub mod accumulate;
pub mod pairing;
pub mod types;
pub mod verify;
pub mod sp1;
pub mod hashing;
pub mod smt;
pub mod wire;
