//! Error types.

use vstd::prelude::*;

verus! {

/// What can go wrong while a circuit is laid out.
#[derive(Clone, Debug, PartialEq, Eq)]
pub enum SynthesisError {
    /// A value is needed for an assignment, and none was given.
    AssignmentMissing,
    /// The circuit cannot be satisfied, for the reason given.
    Unsatisfiable(String),
    /// A vector does not have the length that the circuit fixes; the name says which.
    IncompatibleLengthVector(String),
}

/// What can go wrong on the prover's or the verifier's side.
#[derive(Clone, Debug, PartialEq, Eq)]
pub enum NovaError {
    /// A round polynomial does not meet its claim.
    InvalidSumcheckProof,
    /// A number has no inverse.
    InvalidInversion,
    /// The operating system provides no random numbers.
    RandomnessUnavailable,
    /// The transcript has run out of rounds.
    InternalTranscriptError,
    /// The number of steps is not the one that was proven.
    InvalidNumSteps,
    /// The initial state does not have the right length.
    InvalidInitialInputLength,
    /// An entry of a matrix lies outside of its dimensions.
    InvalidIndex,
    /// A commitment key has too few generators.
    InvalidCommitmentKeyLength,
    /// A relation is not satisfied.
    UnSat {
        /// Which part of it.
        reason: String,
    },
    /// A circuit could not be laid out.
    Synthesis(SynthesisError),
    /// A proof is rejected, for the reason given.
    ProofVerifyError {
        /// Why the proof is rejected.
        reason: String,
    },
}

} // verus!
