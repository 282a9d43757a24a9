//! Confidential transactions over a toy Pedersen commitment scheme.
//!
//! Amounts are hidden inside additively homomorphic commitments
//! `C = v*G + r*H (mod p)`. A verifier checks that the input of a transaction
//! balances its outputs by comparing commitments only, and checks a range proof
//! per commitment to rule out negative amounts.
//!
//! The group is the prime field of order `2^61 - 1` with integer generators; it
//! keeps the shape of the protocol and offers no cryptographic security.

pub mod balance;
pub mod commitment;
pub mod field;
pub mod range_proof;
