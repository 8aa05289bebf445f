//! Cryptographic core of a privacy-preserving value-transfer protocol:
//! an append-only incremental Merkle accumulator over Keccak-256 and a
//! Groth16 withdrawal-proof verifier over the alt_bn128 pairing curve.

pub mod groth16;
pub mod merkle;
pub mod vk;
