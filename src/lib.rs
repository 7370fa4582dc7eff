//! Variable-base scalar multiplication gate for a PLONK-style circuit over the
//! Pallas base field: the two-row layout, the witness generator, the symbolic
//! constraints, and the proofs that the two agree.

pub mod field;
pub mod expr;
pub mod varbasemul;
pub mod gate;
pub mod flags;
pub mod word;
pub mod soundness;
