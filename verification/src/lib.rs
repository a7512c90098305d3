//! Verified core of a succinct argument system over binary tower fields.
//!
//! The crate provides the binary tower field arithmetic (levels 0 through 7,
//! from bits up to 128-bit extension scalars), multilinear extensions and
//! tensor queries, a Reed-Solomon style systematic linear code, a Merkle
//! vector commitment over Groestl-256 digests, a Fiat-Shamir challenger, the
//! tensor polynomial commitment scheme built from those pieces, and the
//! verifier of the batched sum-check protocol.

pub mod challenger;
pub mod code;
pub mod error;
pub mod hashing;
pub mod merkle;
pub mod multilinear;
pub mod multivariate;
pub mod packed;
pub mod params;
pub mod sumcheck;
pub mod tensor_pcs;
pub mod tower;
pub mod util;
