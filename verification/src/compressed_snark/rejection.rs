//! Why an envelope is rejected.

use crate::errors::NovaError;
use vstd::prelude::*;

verus! {

/// Why a proof is rejected.
pub enum Rejection {
    /// The proof is wrong, for the reason given.
    Reason(Seq<char>),
    /// The transcript has given out all its challenges.
    Exhausted,
}

/// The error is the one that the rejection stands for.
pub open spec fn rejected_as(e: NovaError, why: Rejection) -> bool {
    match why {
        Rejection::Reason(s) => e is ProofVerifyError && e->ProofVerifyError_reason@ == s,
        Rejection::Exhausted => e == NovaError::InternalTranscriptError,
    }
}

/// The result is success if nothing is wrong, and the right error otherwise.
pub open spec fn verdict<T>(r: Result<T, NovaError>, why: Option<Rejection>) -> bool {
    match why {
        None => r is Ok,
        Some(x) => r is Err && rejected_as(r->Err_0, x),
    }
}

/// The error of a proof that is rejected for a reason.
pub fn rejection(reason: &str) -> (e: NovaError)
    ensures
        rejected_as(e, Rejection::Reason(reason@)),
{
    NovaError::ProofVerifyError { reason: reason.to_owned() }
}

/// Success and the absence of a rejection are one; what is rejected for a reason is the error with
/// that reason, and a transcript that has run out is the error of the transcript.
pub proof fn law_verdict_exact<T>(r: Result<T, NovaError>, why: Option<Rejection>)
    requires
        verdict(r, why),
    ensures
        r is Ok <==> why is None,
        why is Some && why->Some_0 is Exhausted <==> r is Err && r->Err_0
            == NovaError::InternalTranscriptError,
        why is Some && why->Some_0 is Reason <==> r is Err && r->Err_0 is ProofVerifyError,
        why is Some && why->Some_0 is Reason ==> r->Err_0->ProofVerifyError_reason@
            == why->Some_0->Reason_0,
{
}

} // verus!
