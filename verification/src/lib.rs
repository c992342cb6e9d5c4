//! A polynomial-commitment data-structure library over the BLS12-381
//! pairing-friendly curve: labeled polynomials and commitments, linear
//! combinations of labeled terms, the KZG10 key/commitment/proof types,
//! and their degree-bound ("marlin") variants, together with additive
//! secret sharing of commitments, randomness and proofs.
//!
//! Group, field and polynomial arithmetic is delegated to the arkworks
//! crates behind a small trusted interface (`algebra`); everything built
//! on top of that interface is verified.

pub mod algebra;
pub mod data_structures;
pub mod kzg10;
pub mod marlin_pc;
pub mod share;

pub use data_structures::{
    DeserializeError, LCTerm, LabeledCommitment, LabeledPolynomial, LinearCombination, PCCommitment,
    PCCommitterKey, PCPreparedCommitment, PCPreparedVerifierKey, PCProof, PCRandomness,
    PCUniversalParams, PCVerifierKey, PolynomialLabel,
};
