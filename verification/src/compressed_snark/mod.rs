//! The envelope in which a chain of folds is closed: the folded instance, a proof that it is
//! satisfied, and what ties it to the chain.

pub mod bridged;
pub mod chain;
pub mod closing;
pub mod envelope;
pub mod logup;
pub mod rejection;
pub mod self_checked;
pub mod sigma;
pub mod split;

pub use bridged::BridgedNeutronInstance;
pub use envelope::{CompressedSNARK, ProverKey, VerifierKey};
pub use logup::{build_honest_logup_witnesses, build_per_table_commitments};
pub use sigma::{prove_sigma_E2_equality, verify_sigma_E2_equality, SigmaE2EqualityProof};
pub use split::{split_E_commitments, SplitECommitments};
