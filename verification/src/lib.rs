//! Indexing (preprocessing) stage of a sumcheck-based argument for rank-1
//! constraint systems.
//!
//! Given the three sparse constraint matrices of a circuit, the indexer
//! unifies their nonzero coordinates into one shared sparse layout, pads it
//! to a power-of-two domain, derives the multiplicity polynomials that back
//! the offline memory-checking argument, and commits to the value
//! polynomials through a multilinear polynomial commitment scheme. The
//! result is a prover key and a verifier key for the circuit.

pub mod bits;
pub mod codec;
pub mod field;
pub mod indexer;
pub mod keys;
pub mod matrix;
pub mod multiplicity;
pub mod pcs;
pub mod unify;
