//! A keyed, deterministic permutation of the integers in `[0, 10^d)`,
//! exposed as a forward-only sequence of fixed-width decimal identifiers.
//!
//! The permutation itself comes from a format-preserving encryption
//! capability (FF1 over AES-256); this crate owns the decimal digit codec,
//! the counter-driven sequence around that capability, and the boundary
//! behaviour at domain exhaustion.

pub mod codec;
pub mod permute;
pub mod generator;

pub use generator::RandomIdGenerator;
pub use permute::IdError;
