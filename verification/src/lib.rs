//! Verified folding circuits and proof envelope of a lookup-aware recursive argument.

#![allow(non_snake_case)]

pub mod bundle;
pub mod challenges;
pub mod circuit;
pub mod columns;
pub mod commitment;
pub mod compressed_snark;
pub mod degree;
pub mod digest;
pub mod engine;
pub mod errors;
pub mod field;
pub mod fold_prover;
pub mod frontend;
pub mod gadgets;
pub mod idle;
pub mod linear;
pub mod lookup_sumcheck;
pub mod m31;
pub mod nifs;
pub mod par;
pub mod point;
pub mod poly;
pub mod powers;
pub mod public_params;
pub mod random;
pub mod recursive;
pub mod reference;
pub mod relation;
pub mod shape_registry;
pub mod side;
pub mod state;
pub mod step_circuit;
pub mod structure;
pub mod sums;
pub mod text;
pub mod transcript;

pub use errors::{NovaError, SynthesisError};
pub use field::PrimeField;
pub use m31::M31;
