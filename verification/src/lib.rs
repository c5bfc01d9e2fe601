//! Verifier core of a STARK proof system.
//!
//! Given a committed execution trace, a set of algebraic constraints over it,
//! and sampled openings of the committed polynomials, this library checks
//! that the openings satisfy the constraints at a pseudorandomly sampled
//! point and prepares the delegation to an external low-degree test.

pub mod field;
pub mod extension;
pub mod proof_data;
pub mod consumer;
pub mod stark;
pub mod verify;
