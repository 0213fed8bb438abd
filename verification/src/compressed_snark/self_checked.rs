//! A closing argument whose prover verifies what it hands over.

use super::bridged::BridgedNeutronInstance;
use super::closing::{
    statement, ClosingArgument, Opening, Statement, TableClaims, TableWitnesses,
};
use super::rejection::Rejection;
use crate::commitment::CommitmentKey;
use crate::engine::Engine;
use crate::errors::NovaError;
use crate::structure::Structure;
use vstd::prelude::*;

verus! {

/// The closing argument `EE`, with a prover that hands over only what the verifier accepts.
pub struct SelfChecked<EE> {
    pub _p: std::marker::PhantomData<EE>,
}

/// The keys of the prover and of the verifier.
pub struct SelfCheckedKey<PK, VK> {
    pub pk: PK,
    pub vk: VK,
}

impl<E: Engine, EE: ClosingArgument<E>> ClosingArgument<E> for SelfChecked<EE> {
    type ProverKey = SelfCheckedKey<EE::ProverKey, EE::VerifierKey>;

    type VerifierKey = EE::VerifierKey;

    type Proof = EE::Proof;

    open spec fn pk_for(
        pk: SelfCheckedKey<EE::ProverKey, EE::VerifierKey>,
        ck: CommitmentKey<E>,
        structure: Structure<E>,
    ) -> bool {
        EE::pk_for(pk.pk, ck, structure) && EE::vk_for(pk.vk, ck, structure) && EE::vk_valid(pk.vk)
    }

    open spec fn vk_for(
        vk: EE::VerifierKey,
        ck: CommitmentKey<E>,
        structure: Structure<E>,
    ) -> bool {
        EE::vk_for(vk, ck, structure)
    }

    open spec fn pk_digest(pk: SelfCheckedKey<EE::ProverKey, EE::VerifierKey>) -> int {
        EE::pk_digest(pk.pk)
    }

    open spec fn vk_digest(vk: EE::VerifierKey) -> int {
        EE::vk_digest(vk)
    }

    open spec fn vk_valid(vk: EE::VerifierKey) -> bool {
        EE::vk_valid(vk)
    }

    open spec fn rejection(vk: EE::VerifierKey, s: Statement, proof: EE::Proof) -> Option<
        Rejection,
    > {
        EE::rejection(vk, s, proof)
    }

    open spec fn made_of(
        s: Statement,
        o: Opening,
        eq_w: Seq<Seq<int>>,
        eq_t: Seq<Seq<int>>,
        proof: EE::Proof,
    ) -> bool {
        EE::made_of(s, o, eq_w, eq_t, proof)
    }

    proof fn lemma_digests(
        pk: SelfCheckedKey<EE::ProverKey, EE::VerifierKey>,
        vk: EE::VerifierKey,
        ck: CommitmentKey<E>,
        structure: Structure<E>,
    ) {
        EE::lemma_digests(pk.pk, vk, ck, structure);
    }

    fn setup(ck: &CommitmentKey<E>, structure: &Structure<E>) -> (r: Result<
        (SelfCheckedKey<EE::ProverKey, EE::VerifierKey>, EE::VerifierKey),
        NovaError,
    >) {
        match (EE::setup(ck, structure), EE::setup(ck, structure)) {
            (Ok((pk, vk)), Ok((_, own))) => Ok((SelfCheckedKey { pk, vk: own }, vk)),
            _ => Err(NovaError::InvalidCommitmentKeyLength),
        }
    }

    fn prover_digest(pk: &SelfCheckedKey<EE::ProverKey, EE::VerifierKey>) -> (r: E::Scalar) {
        EE::prover_digest(&pk.pk)
    }

    fn verifier_digest(vk: &EE::VerifierKey) -> (r: E::Scalar) {
        EE::verifier_digest(vk)
    }

    fn prove(
        ck: &CommitmentKey<E>,
        pk: &SelfCheckedKey<EE::ProverKey, EE::VerifierKey>,
        structure: &Structure<E>,
        U: &BridgedNeutronInstance<E>,
        W: &Vec<E::Scalar>,
        E1: &Vec<E::Scalar>,
        E2: &Vec<E::Scalar>,
        claims: TableClaims<E>,
        witnesses: TableWitnesses<E>,
    ) -> (r: Result<EE::Proof, NovaError>)
        ensures
            r is Ok ==> EE::rejection(pk.vk, statement(*U, claims), r->Ok_0) is None,
    {
        let again = TableClaims {
            T_lookup: claims.T_lookup,
            r_logup: claims.r_logup,
            comm_L: claims.comm_L,
            comm_ts: claims.comm_ts,
            comm_inv_w: claims.comm_inv_w,
            comm_inv_t: claims.comm_inv_t,
        };
        let ghost s = statement(*U, claims);
        assert(statement(*U, again) == s);
        let proof = match EE::prove(ck, &pk.pk, structure, U, W, E1, E2, claims, witnesses) {
            Ok(x) => x,
            Err(e) => {
                return Err(e);
            },
        };
        match EE::verify(&pk.vk, U, again, &proof) {
            Ok(_) => Ok(proof),
            Err(e) => Err(e),
        }
    }

    fn verify(
        vk: &EE::VerifierKey,
        U: &BridgedNeutronInstance<E>,
        claims: TableClaims<E>,
        proof: &EE::Proof,
    ) -> (r: Result<(), NovaError>) {
        EE::verify(vk, U, claims, proof)
    }
}

/// A closing argument whose prover checks itself accepts what the argument itself accepts, and
/// rejects for the same reasons; its keys belong to the same structures and have the same digests.
pub proof fn law_self_checked_verifies_alike<E: Engine, EE: ClosingArgument<E>>(
    pk: SelfCheckedKey<EE::ProverKey, EE::VerifierKey>,
    vk: EE::VerifierKey,
    ck: CommitmentKey<E>,
    structure: Structure<E>,
    s: Statement,
    proof: EE::Proof,
)
    ensures
        <SelfChecked<EE> as ClosingArgument<E>>::rejection(vk, s, proof) == EE::rejection(
            vk,
            s,
            proof,
        ),
        <SelfChecked<EE> as ClosingArgument<E>>::vk_digest(vk) == EE::vk_digest(vk),
        <SelfChecked<EE> as ClosingArgument<E>>::pk_digest(pk) == EE::pk_digest(pk.pk),
        <SelfChecked<EE> as ClosingArgument<E>>::vk_for(vk, ck, structure) == EE::vk_for(
            vk,
            ck,
            structure,
        ),
        <SelfChecked<EE> as ClosingArgument<E>>::pk_for(pk, ck, structure) ==> EE::pk_for(
            pk.pk,
            ck,
            structure,
        ) && EE::vk_for(pk.vk, ck, structure),
{
}

} // verus!
