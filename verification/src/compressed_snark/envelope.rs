//! The envelope and its verification.

use super::bridged::BridgedNeutronInstance;
use super::closing::{
    closes, counts_agree, opening, statement, table_opened, vecs, ClosingArgument, Opening,
    Statement, TableClaims, TableWitnesses,
};
use super::logup::{all_drawn, commitments, drawn, drawn_matches};
use super::rejection::{rejection, verdict, Rejection};
use super::sigma::{
    law_sigma_complete, lemma_answer_changed, prove_sigma_E2_equality_with, sigma_absorbed,
    sigma_alpha, sigma_made_from, sigma_rejection, verify_sigma_E2_equality, SigmaE2EqualityProof,
    BIND_SIDE, PCS_SIDE,
};
use super::split::{
    behind_zeros, law_additive_binding, law_derandomized, split_E_commitments_with,
    SplitECommitments,
};
use crate::circuit::state_hash;
use crate::commitment::{copy_scalars, logs, same_key, CommitmentKey, DerandKey};
use crate::engine::{Engine, Group, TranscriptEvent};
use crate::errors::NovaError;
use crate::field::{lemma_cong_add, lemma_cong_sub, lemma_residue, PrimeField};
use crate::poly::vals;
use crate::random::{random_scalar, random_scalars};
use crate::relation::FoldedInstance;
use crate::state::{hash_of_state, same_scalars};
use crate::structure::{same_structure, split_scalars, FoldedWitness, Structure};
use crate::transcript::{
    absorbed, fresh, scalar_bytes, squeezed, Transcript, TranscriptVal, MAX_ROUNDS,
};
use vstd::prelude::*;
use vstd::utf8::encode_utf8;

verus! {

/// The proof that closes a chain of folds.
pub struct CompressedSNARK<E: Engine, EE: ClosingArgument<E>> {
    /// The folded instance, without blindings.
    pub U_bridged: BridgedNeutronInstance<E>,
    /// The commitment to all weights, without blinding.
    pub r_U_derand_comm_E: E::GE,
    /// The commitment to the second half of the weights on the generators behind the first half.
    pub comm_E2_bind: E::GE,
    /// The proof that `comm_E2_bind` and `U_bridged.comm_E2_pcs` open to the same vector.
    pub sigma_E2_equality: SigmaE2EqualityProof<E>,
    /// The proof that the instance and its lookups are satisfied.
    pub snark_spartan: EE::Proof,
    /// The last state.
    pub zn: Vec<E::Scalar>,
    pub per_table_comm_L: Vec<E::GE>,
    pub per_table_comm_ts: Vec<E::GE>,
    pub per_table_comm_inv_w: Vec<E::GE>,
    pub per_table_comm_inv_t: Vec<E::GE>,
    pub per_table_T_lookup: Vec<Vec<E::Scalar>>,
    pub per_table_r_logup: Vec<E::Scalar>,
    /// The folded instance of the chain.
    pub r_U_snapshot: Option<FoldedInstance<E>>,
    /// The public value of the last step.
    pub l_u_X0_snapshot: Option<E::Scalar>,
    /// The blinding of the last hash.
    pub ri_snapshot: Option<E::Scalar>,
    /// The number of steps.
    pub i_snapshot: Option<usize>,
    /// The first state.
    pub z0_snapshot: Option<Vec<E::Scalar>>,
}

/// What the prover works with.
pub struct ProverKey<E: Engine, EE: ClosingArgument<E>> {
    pub pk_spartan: EE::ProverKey,
}

/// What the verifier works with.
pub struct VerifierKey<E: Engine, EE: ClosingArgument<E>> {
    /// The width of a state.
    pub F_arity: usize,
    /// The digest of the public parameters.
    pub pp_digest: E::Scalar,
    pub vk_spartan: EE::VerifierKey,
    /// The number of tables.
    pub lookup_fold_k: usize,
    /// The digest of the registry of shapes; zero.
    pub shape_registry_digest: E::Scalar,
    pub dk: DerandKey<E>,
    pub structure: Structure<E>,
    pub ck: CommitmentKey<E>,
}

impl<E: Engine, EE: ClosingArgument<E>> VerifierKey<E, EE> {
    /// The key can be worked with.
    pub open spec fn wf(self) -> bool {
        &&& EE::vk_valid(self.vk_spartan)
        &&& self.structure.wf()
        &&& self.structure.left + self.structure.right <= self.ck.ck@.len()
    }

    /// The key belongs to a commitment key and a structure.
    pub open spec fn belongs_to(self, ck: CommitmentKey<E>, structure: Structure<E>) -> bool {
        &&& same_key(self.ck, ck)
        &&& same_structure(self.structure, structure)
        &&& EE::vk_for(self.vk_spartan, ck, structure)
    }
}

/// The sum of the commitments to the halves is not the commitment to the whole.
pub const ADDITIVE: &'static str =
    "off-FS Pedersen-additive binding rejected: comm_E1 + comm_E2_bind != r_U_derand_comm_E";

/// The envelope does not carry as much of everything for each table.
pub const INCONSISTENT: &'static str = "per-table envelope fields have inconsistent cardinality";

/// The first state is not the caller's.
pub const Z0_MISMATCH: &'static str =
    "Caller-supplied z0 does not match snapshot z0_snapshot at path (b)";

/// The number of steps is not the caller's.
pub const STEPS_MISMATCH: &'static str =
    "Caller-supplied num_steps does not match snapshot i_snapshot at path (b)";

/// The public value of the last step is not the hash of the state.
pub const HASH_MISMATCH: &'static str = "IVC public-input hash reconstruction mismatch at path (b)";

/// The folded instance has no commitments to lookups.
pub const COMM_L_NONE: &'static str = "r_U_snapshot.comm_L is None at k>0 path (b)";

/// The folded instance has no commitments to multiplicities.
pub const COMM_TS_NONE: &'static str = "r_U_snapshot.comm_ts is None at k>0 path (b)";

/// The folded instance has another number of tables.
pub const SNAPSHOT_COUNT: &'static str =
    "r_U_snapshot per-table commitment cardinality mismatch at path (b)";

/// A commitment to lookups is not that of the folded instance.
pub const COMM_L_MISMATCH: &'static str =
    "per-table comm_L commitment-equality mismatch at path (b)";

/// A commitment to multiplicities is not that of the folded instance.
pub const COMM_TS_MISMATCH: &'static str =
    "per-table comm_ts commitment-equality mismatch at path (b)";

/// The last state is not the caller's.
pub const ZN_MISMATCH: &'static str = "Caller-supplied zn does not match prover-claimed self.zn";

/// The transcript of an envelope at its start.
pub open spec fn envelope_start<E: Engine>(digest: int) -> TranscriptVal {
    absorbed(fresh("NeutronCompressedSNARK_envelope"@), "vk"@, E::Scalar::bytes(digest))
}

/// The transcript behind the claims on the first `n` tables.
pub open spec fn tables_absorbed<E: Engine>(t: TranscriptVal, s: Statement, n: nat) -> TranscriptVal
    decreases n,
{
    if n == 0 {
        t
    } else {
        let j = n - 1;
        let t1 = absorbed(
            tables_absorbed::<E>(t, s, j as nat),
            "comm_L_j"@,
            E::GE::bytes(s.comm_L[j]),
        );
        let t2 = absorbed(t1, "comm_ts_j"@, E::GE::bytes(s.comm_ts[j]));
        let t3 = absorbed(t2, "comm_inv_w_j"@, E::GE::bytes(s.comm_inv_w[j]));
        let t4 = absorbed(t3, "comm_inv_t_j"@, E::GE::bytes(s.comm_inv_t[j]));
        absorbed(t4, "T_lookup_j"@, scalar_bytes::<E::Scalar>(s.T_lookup[j]))
    }
}

/// The transcript behind `n` challenges.
pub open spec fn challenges_drawn(t: TranscriptVal, n: nat) -> TranscriptVal
    decreases n,
{
    if n == 0 {
        t
    } else {
        squeezed(challenges_drawn(t, (n - 1) as nat), "r_logup_j"@)
    }
}

/// Taking in claims gives out no challenge.
proof fn lemma_tables_rounds<E: Engine>(t: TranscriptVal, s: Statement, n: nat)
    ensures
        tables_absorbed::<E>(t, s, n).rounds == t.rounds,
    decreases n,
{
    if n > 0 {
        lemma_tables_rounds::<E>(t, s, (n - 1) as nat);
    }
}

/// Every challenge counts once.
proof fn lemma_challenge_rounds(t: TranscriptVal, n: nat)
    ensures
        challenges_drawn(t, n).rounds == t.rounds + n,
    decreases n,
{
    if n > 0 {
        lemma_challenge_rounds(t, (n - 1) as nat);
    }
}

/// Takes the claims on the tables into a transcript and draws a challenge for each of them.
fn bind_tables<E: Engine>(transcript: &mut Transcript<E>, claims: &TableClaims<E>, Ghost(s): Ghost<
    Statement,
>) -> (r: Result<(), NovaError>)
    requires
        old(transcript)@.rounds <= MAX_ROUNDS,
        s.comm_L == logs::<E>(claims.comm_L@),
        s.comm_ts == logs::<E>(claims.comm_ts@),
        s.comm_inv_w == logs::<E>(claims.comm_inv_w@),
        s.comm_inv_t == logs::<E>(claims.comm_inv_t@),
        s.T_lookup == vecs(claims.T_lookup@),
        claims.comm_ts@.len() == claims.comm_L@.len(),
        claims.comm_inv_w@.len() == claims.comm_L@.len(),
        claims.comm_inv_t@.len() == claims.comm_L@.len(),
        claims.T_lookup@.len() == claims.comm_L@.len(),
    ensures
        r is Ok <==> old(transcript)@.rounds + claims.comm_L@.len() <= MAX_ROUNDS,
        r is Err ==> r == Err::<(), NovaError>(NovaError::InternalTranscriptError),
        r is Ok ==> final(transcript)@ == challenges_drawn(
            tables_absorbed::<E>(old(transcript)@, s, claims.comm_L@.len()),
            claims.comm_L@.len(),
        ),
{
    let k: usize = claims.comm_L.len();
    let ghost t0 = transcript@;
    let mut j: usize = 0;
    while j < k
        invariant
            j <= k,
            k == claims.comm_L@.len(),
            k == claims.comm_ts@.len(),
            k == claims.comm_inv_w@.len(),
            k == claims.comm_inv_t@.len(),
            k == claims.T_lookup@.len(),
            s.comm_L == logs::<E>(claims.comm_L@),
            s.comm_ts == logs::<E>(claims.comm_ts@),
            s.comm_inv_w == logs::<E>(claims.comm_inv_w@),
            s.comm_inv_t == logs::<E>(claims.comm_inv_t@),
            s.T_lookup == vecs(claims.T_lookup@),
            transcript@ == tables_absorbed::<E>(t0, s, j as nat),
        decreases k - j,
    {
        transcript.absorb_point("comm_L_j", &claims.comm_L[j]);
        transcript.absorb_point("comm_ts_j", &claims.comm_ts[j]);
        transcript.absorb_point("comm_inv_w_j", &claims.comm_inv_w[j]);
        transcript.absorb_point("comm_inv_t_j", &claims.comm_inv_t[j]);
        transcript.absorb_scalars("T_lookup_j", &claims.T_lookup[j]);
        j = j + 1;
    }
    let ghost t1 = transcript@;
    proof {
        lemma_tables_rounds::<E>(t0, s, k as nat);
    }
    let mut i: usize = 0;
    while i < k
        invariant
            i <= k,
            t1.rounds + i <= MAX_ROUNDS,
            t1.rounds == t0.rounds,
            t0 == old(transcript)@,
            k == claims.comm_L@.len(),
            transcript@ == challenges_drawn(t1, i as nat),
        decreases k - i,
    {
        proof {
            lemma_challenge_rounds(t1, i as nat);
        }
        match transcript.squeeze("r_logup_j") {
            Ok(_) => {},
            Err(_) => {
                return Err(NovaError::InternalTranscriptError);
            },
        }
        i = i + 1;
    }
    Ok(())
}

/// The first table from `j` on whose commitments are not those of the folded instance, and which
/// of them it is.
pub open spec fn tables_rejection(
    comm_L: Seq<int>,
    comm_ts: Seq<int>,
    r_U_comm_L: Seq<int>,
    r_U_comm_ts: Seq<int>,
    j: nat,
) -> Option<Rejection>
    decreases comm_L.len() - j,
{
    if j >= comm_L.len() {
        None
    } else if comm_L[j as int] != r_U_comm_L[j as int] {
        Some(Rejection::Reason(COMM_L_MISMATCH@))
    } else if comm_ts[j as int] != r_U_comm_ts[j as int] {
        Some(Rejection::Reason(COMM_TS_MISMATCH@))
    } else {
        tables_rejection(comm_L, comm_ts, r_U_comm_L, r_U_comm_ts, (j + 1) as nat)
    }
}

/// Why a chain that ended in the given state is rejected, if it is: the public value of its last
/// step must be the hash of the state, and the commitments of its tables must be those of the
/// folded instance.
pub open spec fn chain_rejection<E: Engine>(
    pp_digest: int,
    U: FoldedInstance<E>,
    X0: int,
    ri: int,
    i: nat,
    z0: Seq<int>,
    zn: Seq<int>,
    comm_L: Seq<int>,
    comm_ts: Seq<int>,
) -> Option<Rejection> {
    if X0 != state_hash::<E>(
        pp_digest,
        (i as int) % E::Scalar::modulus(),
        z0,
        zn,
        U@,
        ri,
    ) {
        Some(Rejection::Reason(HASH_MISMATCH@))
    } else if U.comm_L is None {
        Some(Rejection::Reason(COMM_L_NONE@))
    } else if U.comm_ts is None {
        Some(Rejection::Reason(COMM_TS_NONE@))
    } else if U.comm_L->Some_0@.len() != comm_L.len() || U.comm_ts->Some_0@.len() != comm_L.len() {
        Some(Rejection::Reason(SNAPSHOT_COUNT@))
    } else {
        tables_rejection(
            comm_L,
            comm_ts,
            logs::<E>(U.comm_L->Some_0@),
            logs::<E>(U.comm_ts->Some_0@),
            0,
        )
    }
}

impl<E: Engine, EE: ClosingArgument<E>> CompressedSNARK<E, EE> {
    /// What is claimed on the tables.
    pub open spec fn claims(&self) -> TableClaims<'_, E> {
        TableClaims {
            T_lookup: &self.per_table_T_lookup,
            r_logup: &self.per_table_r_logup,
            comm_L: &self.per_table_comm_L,
            comm_ts: &self.per_table_comm_ts,
            comm_inv_w: &self.per_table_comm_inv_w,
            comm_inv_t: &self.per_table_comm_inv_t,
        }
    }

    /// What is claimed.
    pub open spec fn statement(self) -> Statement {
        statement(self.U_bridged, self.claims())
    }

    /// The number of tables.
    pub open spec fn k(self) -> nat {
        self.per_table_comm_L@.len()
    }

    /// Everything that ties the envelope to the chain is there.
    pub open spec fn has_snapshot(self) -> bool {
        &&& self.r_U_snapshot is Some
        &&& self.l_u_X0_snapshot is Some
        &&& self.ri_snapshot is Some
        &&& self.i_snapshot is Some
        &&& self.z0_snapshot is Some
    }

    /// Why what ties the envelope to the chain is rejected, if it is.
    pub open spec fn snapshot_rejection(
        self,
        pp_digest: int,
        num_steps: nat,
        z0: Seq<int>,
    ) -> Option<Rejection> {
        if !self.has_snapshot() {
            None
        } else if vals(self.z0_snapshot->Some_0@) != z0 {
            Some(Rejection::Reason(Z0_MISMATCH@))
        } else if self.i_snapshot->Some_0 != num_steps {
            Some(Rejection::Reason(STEPS_MISMATCH@))
        } else {
            chain_rejection(
                pp_digest,
                self.r_U_snapshot->Some_0,
                self.l_u_X0_snapshot->Some_0.val(),
                self.ri_snapshot->Some_0.val(),
                num_steps,
                z0,
                vals(self.zn@),
                logs::<E>(self.per_table_comm_L@),
                logs::<E>(self.per_table_comm_ts@),
            )
        }
    }

    /// Why the proof that the two commitments to the second half agree is rejected, if it is.
    pub open spec fn equality_rejection(
        self,
        ck: CommitmentKey<E>,
        structure: Structure<E>,
        digest: int,
    ) -> Option<Rejection> {
        sigma_rejection(
            ck,
            structure,
            self.U_bridged.comm_E1.log(),
            self.comm_E2_bind.log(),
            self.U_bridged.comm_E2_pcs.log(),
            self.r_U_derand_comm_E.log(),
            self.sigma_E2_equality,
            envelope_start::<E>(digest),
        )
    }

    /// The commitments to the halves of the weights add up.
    pub open spec fn adds_up(self) -> bool {
        (self.U_bridged.comm_E1.log() + self.comm_E2_bind.log()) % E::Scalar::modulus()
            == self.r_U_derand_comm_E.log()
    }

    /// The envelope carries as much of everything for each table.
    pub open spec fn consistent(self) -> bool {
        &&& self.per_table_comm_ts@.len() == self.k()
        &&& self.per_table_comm_inv_w@.len() == self.k()
        &&& self.per_table_comm_inv_t@.len() == self.k()
        &&& self.per_table_T_lookup@.len() == self.k()
    }

    /// Why the envelope is rejected, if it is. The tests are made in this order.
    pub open spec fn rejection(
        self,
        vk: VerifierKey<E, EE>,
        num_steps: nat,
        z0: Seq<int>,
        zn: Seq<int>,
    ) -> Option<Rejection> {
        let equality = self.equality_rejection(
            vk.ck,
            vk.structure,
            EE::vk_digest(vk.vk_spartan),
        );
        let snapshot = self.snapshot_rejection(vk.pp_digest.val(), num_steps, z0);
        let closing = EE::rejection(vk.vk_spartan, self.statement(), self.snark_spartan);
        if !self.adds_up() {
            Some(Rejection::Reason(ADDITIVE@))
        } else if equality is Some {
            equality
        } else if !self.consistent() {
            Some(Rejection::Reason(INCONSISTENT@))
        } else if snapshot is Some {
            snapshot
        } else if self.k() >= MAX_ROUNDS {
            Some(Rejection::Exhausted)
        } else if closing is Some {
            closing
        } else if zn != vals(self.zn@) {
            Some(Rejection::Reason(ZN_MISMATCH@))
        } else {
            None
        }
    }

    /// An envelope that is accepted is rejected with another commitment to the second half: the
    /// commitments to the halves no longer add up.
    pub proof fn law_shifted_commitment_rejected(
        self,
        other: Self,
        vk: VerifierKey<E, EE>,
        num_steps: nat,
        z0: Seq<int>,
        zn: Seq<int>,
    )
        requires
            self.rejection(vk, num_steps, z0, zn) is None,
            other.U_bridged == self.U_bridged,
            other.r_U_derand_comm_E == self.r_U_derand_comm_E,
            other.comm_E2_bind.log() % E::Scalar::modulus() != self.comm_E2_bind.log()
                % E::Scalar::modulus(),
        ensures
            other.rejection(vk, num_steps, z0, zn) == Some(Rejection::Reason(ADDITIVE@)),
    {
        let p = E::Scalar::modulus();
        E::Scalar::lemma_modulus();
        let e = self.U_bridged.comm_E1.log();
        if other.adds_up() {
            lemma_cong_sub(
                p,
                e + other.comm_E2_bind.log(),
                e,
                e + self.comm_E2_bind.log(),
                e,
            );
        }
    }

    /// An envelope that is accepted is rejected with one entry of the answer in its proof of equal
    /// openings changed, if the generator that the entry meets on one of the two sides is not
    /// neutral. The reason names the first such side.
    pub proof fn law_shifted_answer_rejected(
        self,
        other: Self,
        vk: VerifierKey<E, EE>,
        num_steps: nat,
        z0: Seq<int>,
        zn: Seq<int>,
        i: int,
        x: int,
    )
        requires
            vk.structure.left + vk.structure.right <= vk.ck.ck@.len(),
            self.rejection(vk, num_steps, z0, zn) is None,
            other.U_bridged == self.U_bridged,
            other.r_U_derand_comm_E == self.r_U_derand_comm_E,
            other.comm_E2_bind == self.comm_E2_bind,
            other.sigma_E2_equality.T_bind == self.sigma_E2_equality.T_bind,
            other.sigma_E2_equality.T_pcs == self.sigma_E2_equality.T_pcs,
            other.sigma_E2_equality.z_r_bind == self.sigma_E2_equality.z_r_bind,
            other.sigma_E2_equality.z_r_pcs == self.sigma_E2_equality.z_r_pcs,
            0 <= i < self.sigma_E2_equality.z@.len(),
            x % E::Scalar::modulus() != vals(self.sigma_E2_equality.z@)[i] % E::Scalar::modulus(),
            vals(other.sigma_E2_equality.z@) == vals(self.sigma_E2_equality.z@).update(i, x),
            vk.ck.ck@[vk.structure.left + i].log() % E::Scalar::modulus() != 0
                || vk.ck.ck@[i].log() % E::Scalar::modulus() != 0,
        ensures
            other.rejection(vk, num_steps, z0, zn) == Some(
                Rejection::Reason(
                    if vk.ck.ck@[vk.structure.left + i].log() % E::Scalar::modulus() != 0 {
                        BIND_SIDE@
                    } else {
                        PCS_SIDE@
                    },
                ),
            ),
    {
        let a = self.sigma_E2_equality;
        let b = other.sigma_E2_equality;
        let z = vals(a.z@);
        let left = vk.structure.left as nat;
        assert(vals(b.z@).len() == b.z@.len());
        assert(z.len() == a.z@.len());
        let t = sigma_absorbed::<E>(
            envelope_start::<E>(EE::vk_digest(vk.vk_spartan)),
            self.r_U_derand_comm_E.log(),
            self.U_bridged.comm_E1.log(),
            self.comm_E2_bind.log(),
            self.U_bridged.comm_E2_pcs.log(),
            a.T_bind.log(),
            a.T_pcs.log(),
        );
        let alpha = sigma_alpha::<E>(t);
        assert(behind_zeros(left, z).update(left + i, x) =~= behind_zeros(left, z.update(i, x)));
        assert(behind_zeros(left, z)[left + i] == z[i]);
        lemma_answer_changed(
            vk.ck,
            behind_zeros(left, z),
            a.z_r_bind.val(),
            a.T_bind.log(),
            self.comm_E2_bind.log(),
            alpha,
            left + i,
            x,
        );
        lemma_answer_changed(
            vk.ck,
            z,
            a.z_r_pcs.val(),
            a.T_pcs.log(),
            self.U_bridged.comm_E2_pcs.log(),
            alpha,
            i,
            x,
        );
    }

    /// Tests the public value of the last step and the commitments of the tables.
    fn check_chain(
        &self,
        pp_digest: E::Scalar,
        U: &FoldedInstance<E>,
        X0: E::Scalar,
        ri: E::Scalar,
        i: usize,
        z0: &Vec<E::Scalar>,
    ) -> (r: Result<(), NovaError>)
        requires
            self.consistent(),
        ensures
            verdict(
                r,
                chain_rejection(
                    pp_digest.val(),
                    *U,
                    X0.val(),
                    ri.val(),
                    i as nat,
                    vals(z0@),
                    vals(self.zn@),
                    logs::<E>(self.per_table_comm_L@),
                    logs::<E>(self.per_table_comm_ts@),
                ),
            ),
    {
        let step = E::Scalar::from_u64(i as u64);
        let hash = hash_of_state(pp_digest, step, z0, &self.zn, U, ri);
        if !X0.same(hash) {
            return Err(rejection(HASH_MISMATCH));
        }
        let comm_L = match &U.comm_L {
            Some(x) => x,
            None => {
                return Err(rejection(COMM_L_NONE));
            },
        };
        let comm_ts = match &U.comm_ts {
            Some(x) => x,
            None => {
                return Err(rejection(COMM_TS_NONE));
            },
        };
        let k: usize = self.per_table_comm_L.len();
        if comm_L.len() != k || comm_ts.len() != k {
            return Err(rejection(SNAPSHOT_COUNT));
        }
        let ghost a = logs::<E>(self.per_table_comm_L@);
        let ghost b = logs::<E>(self.per_table_comm_ts@);
        let ghost c = logs::<E>(comm_L@);
        let ghost d = logs::<E>(comm_ts@);
        let ghost why = chain_rejection(
            pp_digest.val(),
            *U,
            X0.val(),
            ri.val(),
            i as nat,
            vals(z0@),
            vals(self.zn@),
            a,
            b,
        );
        let mut j: usize = 0;
        while j < k
            invariant
                j <= k,
                k == self.per_table_comm_L@.len(),
                k == self.per_table_comm_ts@.len(),
                k == comm_L@.len(),
                k == comm_ts@.len(),
                a == logs::<E>(self.per_table_comm_L@),
                b == logs::<E>(self.per_table_comm_ts@),
                c == logs::<E>(comm_L@),
                d == logs::<E>(comm_ts@),
                why == tables_rejection(a, b, c, d, j as nat),
                why == chain_rejection(
                    pp_digest.val(),
                    *U,
                    X0.val(),
                    ri.val(),
                    i as nat,
                    vals(z0@),
                    vals(self.zn@),
                    a,
                    b,
                ),
            decreases k - j,
        {
            if !self.per_table_comm_L[j].same(comm_L[j]) {
                return Err(rejection(COMM_L_MISMATCH));
            }
            if !self.per_table_comm_ts[j].same(comm_ts[j]) {
                return Err(rejection(COMM_TS_MISMATCH));
            }
            j = j + 1;
        }
        Ok(())
    }

    /// Tests what ties the envelope to the chain, where it is there.
    fn check_snapshot(&self, pp_digest: E::Scalar, num_steps: usize, z0: &[E::Scalar]) -> (r:
        Result<(), NovaError>)
        requires
            self.consistent(),
        ensures
            verdict(r, self.snapshot_rejection(pp_digest.val(), num_steps as nat, vals(z0@))),
    {
        let U = match &self.r_U_snapshot {
            Some(x) => x,
            None => {
                return Ok(());
            },
        };
        let X0 = match self.l_u_X0_snapshot {
            Some(x) => x,
            None => {
                return Ok(());
            },
        };
        let ri = match self.ri_snapshot {
            Some(x) => x,
            None => {
                return Ok(());
            },
        };
        let i: usize = match self.i_snapshot {
            Some(x) => x,
            None => {
                return Ok(());
            },
        };
        let z0_snap = match &self.z0_snapshot {
            Some(x) => x,
            None => {
                return Ok(());
            },
        };
        if !same_scalars(z0_snap, z0) {
            return Err(rejection(Z0_MISMATCH));
        }
        if i != num_steps {
            return Err(rejection(STEPS_MISMATCH));
        }
        self.check_chain(pp_digest, U, X0, ri, i, z0_snap)
    }

    /// Verifies the envelope and gives back the last state.
    pub fn verify(
        &self,
        vk: &VerifierKey<E, EE>,
        num_steps: usize,
        z0: &[E::Scalar],
        zn: &[E::Scalar],
    ) -> (r: Result<Vec<E::Scalar>, NovaError>)
        requires
            vk.wf(),
        ensures
            verdict(r, self.rejection(*vk, num_steps as nat, vals(z0@), vals(zn@))),
            r is Ok ==> r->Ok_0@ == self.zn@ && vals(r->Ok_0@) == vals(zn@),
    {
        let ghost s = self.statement();
        if !self.U_bridged.comm_E1.plus(self.comm_E2_bind).same(self.r_U_derand_comm_E) {
            return Err(rejection(ADDITIVE));
        }
        let mut transcript = Transcript::<E>::new("NeutronCompressedSNARK_envelope");
        transcript.absorb_scalar("vk", &EE::verifier_digest(&vk.vk_spartan));
        let equality = verify_sigma_E2_equality(
            &vk.ck,
            &vk.structure,
            &self.U_bridged.comm_E1,
            &self.comm_E2_bind,
            &self.U_bridged.comm_E2_pcs,
            &self.r_U_derand_comm_E,
            &self.sigma_E2_equality,
            &mut transcript,
        );
        match equality {
            Ok(_) => {},
            Err(e) => {
                return Err(e);
            },
        }
        let k: usize = self.per_table_comm_L.len();
        if self.per_table_comm_ts.len() != k || self.per_table_comm_inv_w.len() != k
            || self.per_table_comm_inv_t.len() != k || self.per_table_T_lookup.len() != k {
            return Err(rejection(INCONSISTENT));
        }
        match self.check_snapshot(vk.pp_digest, num_steps, z0) {
            Ok(_) => {},
            Err(e) => {
                return Err(e);
            },
        }
        let claims = TableClaims {
            T_lookup: &self.per_table_T_lookup,
            r_logup: &self.per_table_r_logup,
            comm_L: &self.per_table_comm_L,
            comm_ts: &self.per_table_comm_ts,
            comm_inv_w: &self.per_table_comm_inv_w,
            comm_inv_t: &self.per_table_comm_inv_t,
        };
        assert(transcript@.rounds == 1);
        match bind_tables(&mut transcript, &claims, Ghost(s)) {
            Ok(_) => {},
            Err(e) => {
                return Err(e);
            },
        }
        match EE::verify(&vk.vk_spartan, &self.U_bridged, claims, &self.snark_spartan) {
            Ok(_) => {},
            Err(e) => {
                return Err(e);
            },
        }
        if !same_scalars(zn, &self.zn) {
            return Err(rejection(ZN_MISMATCH));
        }
        Ok(copy_scalars(&self.zn))
    }
}

/// The vectors of the lookups and what is committed to, table by table.
pub struct LogUpTables<E: Engine> {
    pub w: Vec<Vec<E::Scalar>>,
    pub ts: Vec<Vec<E::Scalar>>,
    pub inv_w: Vec<Vec<E::Scalar>>,
    pub inv_t: Vec<Vec<E::Scalar>>,
    pub T: Vec<Vec<E::Scalar>>,
    pub eq_w: Vec<Vec<E::Scalar>>,
    pub eq_t: Vec<Vec<E::Scalar>>,
    pub r_logup: Vec<E::Scalar>,
    pub comm_L: Vec<E::GE>,
    pub comm_ts: Vec<E::GE>,
    pub comm_inv_w: Vec<E::GE>,
    pub comm_inv_t: Vec<E::GE>,
}

impl<E: Engine> LogUpTables<E> {
    /// There is one entry per table everywhere.
    pub open spec fn counted(self) -> bool {
        let k = self.r_logup@.len();
        &&& self.w@.len() == k
        &&& self.ts@.len() == k
        &&& self.inv_w@.len() == k
        &&& self.inv_t@.len() == k
        &&& self.T@.len() == k
        &&& self.eq_w@.len() == k
        &&& self.eq_t@.len() == k
        &&& self.comm_L@.len() == k
        &&& self.comm_ts@.len() == k
        &&& self.comm_inv_w@.len() == k
        &&& self.comm_inv_t@.len() == k
    }

    /// The public side.
    pub open spec fn claims(&self) -> TableClaims<'_, E> {
        TableClaims {
            T_lookup: &self.T,
            r_logup: &self.r_logup,
            comm_L: &self.comm_L,
            comm_ts: &self.comm_ts,
            comm_inv_w: &self.comm_inv_w,
            comm_inv_t: &self.comm_inv_t,
        }
    }

    /// The private side.
    pub open spec fn witnesses(&self) -> TableWitnesses<'_, E> {
        TableWitnesses {
            w: &self.w,
            ts: &self.ts,
            inv_w: &self.inv_w,
            inv_t: &self.inv_t,
            eq_w: &self.eq_w,
            eq_t: &self.eq_t,
        }
    }

    /// No tables.
    pub fn none() -> (r: Self)
        ensures
            r.counted(),
            r.r_logup@.len() == 0,
    {
        LogUpTables {
            w: Vec::new(),
            ts: Vec::new(),
            inv_w: Vec::new(),
            inv_t: Vec::new(),
            T: Vec::new(),
            eq_w: Vec::new(),
            eq_t: Vec::new(),
            r_logup: Vec::new(),
            comm_L: Vec::new(),
            comm_ts: Vec::new(),
            comm_inv_w: Vec::new(),
            comm_inv_t: Vec::new(),
        }
    }
}

/// The random scalars that an envelope is made with.
pub struct Masks<E: Engine> {
    pub r_E1: E::Scalar,
    pub r_E2_pcs: E::Scalar,
    pub rho: Vec<E::Scalar>,
    pub sigma_bind: E::Scalar,
    pub sigma_pcs: E::Scalar,
}

/// Masks from the operating system.
fn draw_masks<E: Engine>(right: usize) -> (r: Result<Masks<E>, NovaError>)
    ensures
        r is Err ==> r == Err::<Masks<E>, NovaError>(NovaError::RandomnessUnavailable),
        r is Ok ==> r->Ok_0.rho@.len() == right,
{
    let r_E1 = random_scalar::<E::Scalar>()?;
    let r_E2_pcs = random_scalar::<E::Scalar>()?;
    let rho = random_scalars::<E::Scalar>(right)?;
    let sigma_bind = random_scalar::<E::Scalar>()?;
    let sigma_pcs = random_scalar::<E::Scalar>()?;
    Ok(Masks { r_E1, r_E2_pcs, rho, sigma_bind, sigma_pcs })
}

/// The first half of the weights.
pub open spec fn first_half<E: Engine>(structure: Structure<E>, W: FoldedWitness<E>) -> Seq<int> {
    vals(W.E@).take(structure.left as int)
}

/// The second half of the weights.
pub open spec fn second_half<E: Engine>(structure: Structure<E>, W: FoldedWitness<E>) -> Seq<int> {
    vals(W.E@).skip(structure.left as int)
}

/// What is claimed of a folded instance once the blindings are taken away.
pub open spec fn bridged_statement<E: Engine>(
    ck: CommitmentKey<E>,
    structure: Structure<E>,
    U: FoldedInstance<E>,
    W: FoldedWitness<E>,
    claims: TableClaims<E>,
) -> Statement {
    Statement {
        comm_W: (U.comm_W.log() - W.r_W.val() * ck.h.log()) % E::Scalar::modulus(),
        comm_E1: ck.commitment(first_half(structure, W), 0),
        comm_E2_pcs: ck.commitment(second_half(structure, W), 0),
        u: U.u.val(),
        X: vals(U.X@),
        T: U.T.val(),
        T_lookup: vecs(claims.T_lookup@),
        r_logup: vals(claims.r_logup@),
        comm_L: logs::<E>(claims.comm_L@),
        comm_ts: logs::<E>(claims.comm_ts@),
        comm_inv_w: logs::<E>(claims.comm_inv_w@),
        comm_inv_t: logs::<E>(claims.comm_inv_t@),
    }
}

/// The vectors behind the statement.
pub open spec fn bridged_opening<E: Engine>(
    structure: Structure<E>,
    W: FoldedWitness<E>,
    witnesses: TableWitnesses<E>,
) -> Opening {
    Opening {
        W: vals(W.W@),
        E1: first_half(structure, W),
        E2: second_half(structure, W),
        w: vecs(witnesses.w@),
        ts: vecs(witnesses.ts@),
        inv_w: vecs(witnesses.inv_w@),
        inv_t: vecs(witnesses.inv_t@),
    }
}

impl<E: Engine, EE: ClosingArgument<E>> CompressedSNARK<E, EE> {
    /// The envelope is made from a folded instance, its witness and tables.
    pub open spec fn made_from(
        self,
        ck: CommitmentKey<E>,
        structure: Structure<E>,
        digest: int,
        r_U: FoldedInstance<E>,
        r_W: FoldedWitness<E>,
        claims: TableClaims<E>,
        witnesses: TableWitnesses<E>,
    ) -> bool {
        let s = bridged_statement(ck, structure, r_U, r_W, claims);
        let o = bridged_opening(structure, r_W, witnesses);
        &&& self.statement() == s
        &&& self.r_U_derand_comm_E.log() == (r_U.comm_E.log() - r_W.r_E.val() * ck.h.log())
            % E::Scalar::modulus()
        &&& self.comm_E2_bind.log() == ck.commitment(
            behind_zeros(structure.left as nat, second_half(structure, r_W)),
            0,
        )
        &&& self.equality_rejection(ck, structure, digest) is None
        &&& EE::made_of(
            s,
            o,
            vecs(witnesses.eq_w@),
            vecs(witnesses.eq_t@),
            self.snark_spartan,
        )
        &&& closes(ck, structure, s, o) ==> forall|vk: EE::VerifierKey| #[trigger]
            EE::vk_for(vk, ck, structure) ==> EE::rejection(vk, s, self.snark_spartan) is None
    }

    /// The challenge of the proof that the two commitments to the second half agree.
    pub open spec fn equality_challenge(self, digest: int) -> int {
        sigma_alpha::<E>(
            sigma_absorbed::<E>(
                envelope_start::<E>(digest),
                self.r_U_derand_comm_E.log(),
                self.U_bridged.comm_E1.log(),
                self.comm_E2_bind.log(),
                self.U_bridged.comm_E2_pcs.log(),
                self.sigma_E2_equality.T_bind.log(),
                self.sigma_E2_equality.T_pcs.log(),
            ),
        )
    }

    /// The proof that the two commitments to the second half agree is made with the masks.
    pub open spec fn masked_by(
        self,
        ck: CommitmentKey<E>,
        structure: Structure<E>,
        digest: int,
        r_W: FoldedWitness<E>,
        masks: Masks<E>,
    ) -> bool {
        sigma_made_from(
            self.sigma_E2_equality,
            ck,
            structure.left as nat,
            second_half(structure, r_W),
            0,
            0,
            vals(masks.rho@),
            masks.sigma_bind.val(),
            masks.sigma_pcs.val(),
            self.equality_challenge(digest),
        )
    }

    /// The envelope does not carry what ties it to the chain.
    pub open spec fn untied(self) -> bool {
        &&& self.r_U_snapshot is None
        &&& self.l_u_X0_snapshot is None
        &&& self.ri_snapshot is None
        &&& self.i_snapshot is None
        &&& self.z0_snapshot is None
    }

    /// Makes an envelope with given masks.
    pub fn prove_masked(
        ck: &CommitmentKey<E>,
        structure: &Structure<E>,
        pk: &ProverKey<E, EE>,
        r_U: &FoldedInstance<E>,
        r_W: &FoldedWitness<E>,
        zn: Vec<E::Scalar>,
        tables: LogUpTables<E>,
        masks: &Masks<E>,
    ) -> (r: Result<Self, NovaError>)
        requires
            structure.wf(),
            r_W.E@.len() == structure.left + structure.right,
            r_W.E@.len() <= ck.ck@.len(),
            EE::pk_for(pk.pk_spartan, *ck, *structure),
            masks.rho@.len() == structure.right,
            tables.counted(),
        ensures
            tables.r_logup@.len() >= MAX_ROUNDS ==> r == Err::<Self, NovaError>(
                NovaError::InternalTranscriptError,
            ),
            tables.r_logup@.len() < MAX_ROUNDS && closes(
                *ck,
                *structure,
                bridged_statement(*ck, *structure, *r_U, *r_W, tables.claims()),
                bridged_opening(*structure, *r_W, tables.witnesses()),
            ) ==> r is Ok,
            r is Ok ==> {
                &&& r->Ok_0.made_from(
                    *ck,
                    *structure,
                    EE::pk_digest(pk.pk_spartan),
                    *r_U,
                    *r_W,
                    tables.claims(),
                    tables.witnesses(),
                )
                &&& r->Ok_0.masked_by(
                    *ck,
                    *structure,
                    EE::pk_digest(pk.pk_spartan),
                    *r_W,
                    *masks,
                )
                &&& r->Ok_0.zn == zn
                &&& r->Ok_0.claims() == tables.claims()
                &&& r->Ok_0.untied()
            },
    {
        let ghost claims0 = tables.claims();
        let ghost witnesses0 = tables.witnesses();
        let ghost s = bridged_statement(*ck, *structure, *r_U, *r_W, claims0);
        let ghost o = bridged_opening(*structure, *r_W, witnesses0);
        let SplitECommitments {
            comm_E1: comm_E1_blinded,
            comm_E2_bind: comm_E2_bind_blinded,
            comm_E2_pcs: comm_E2_pcs_blinded,
            r_E1,
            r_E2_bind,
            r_E2_pcs,
        } = split_E_commitments_with(ck, r_W, structure, masks.r_E1, masks.r_E2_pcs);
        let dk = ck.derand_key();
        let comm_W = dk.derandomize(&r_U.comm_W, &r_W.r_W);
        let comm_E = dk.derandomize(&r_U.comm_E, &r_W.r_E);
        let comm_E1 = dk.derandomize(&comm_E1_blinded, &r_E1);
        let comm_E2_bind = dk.derandomize(&comm_E2_bind_blinded, &r_E2_bind);
        let comm_E2_pcs = dk.derandomize(&comm_E2_pcs_blinded, &r_E2_pcs);
        let (E1, E2) = split_scalars(&r_W.E, structure.left);
        proof {
            law_derandomized(*ck, first_half(*structure, *r_W), r_E1.val());
            law_derandomized(
                *ck,
                behind_zeros(structure.left as nat, second_half(*structure, *r_W)),
                r_E2_bind.val(),
            );
            law_derandomized(*ck, second_half(*structure, *r_W), r_E2_pcs.val());
        }
        let mut transcript = Transcript::<E>::new("NeutronCompressedSNARK_envelope");
        transcript.absorb_scalar("vk", &EE::prover_digest(&pk.pk_spartan));
        let ghost start = transcript@;
        let zero = E::Scalar::zero();
        let sigma = prove_sigma_E2_equality_with(
            ck,
            structure,
            &E2,
            &zero,
            &zero,
            &comm_E1,
            &comm_E2_bind,
            &comm_E2_pcs,
            &comm_E,
            &mut transcript,
            &masks.rho,
            masks.sigma_bind,
            masks.sigma_pcs,
        );
        let sigma_E2_equality = match sigma {
            Ok(x) => x,
            Err(e) => {
                return Err(e);
            },
        };
        proof {
            let t = sigma_absorbed::<E>(
                start,
                comm_E.log(),
                comm_E1.log(),
                comm_E2_bind.log(),
                comm_E2_pcs.log(),
                sigma_E2_equality.T_bind.log(),
                sigma_E2_equality.T_pcs.log(),
            );
            assert(vals(sigma_E2_equality.z@).len() == E2@.len());
            law_sigma_complete(
                *ck,
                structure.left as nat,
                sigma_E2_equality,
                vals(E2@),
                0,
                0,
                vals(masks.rho@),
                masks.sigma_bind.val(),
                masks.sigma_pcs.val(),
                sigma_alpha::<E>(t),
            );
        }
        let claims = TableClaims {
            T_lookup: &tables.T,
            r_logup: &tables.r_logup,
            comm_L: &tables.comm_L,
            comm_ts: &tables.comm_ts,
            comm_inv_w: &tables.comm_inv_w,
            comm_inv_t: &tables.comm_inv_t,
        };
        match bind_tables(&mut transcript, &claims, Ghost(s)) {
            Ok(_) => {},
            Err(e) => {
                return Err(e);
            },
        }
        let U_bridged = BridgedNeutronInstance::<E> {
            comm_W,
            comm_E1,
            comm_E2_pcs,
            u: r_U.u,
            X: copy_scalars(&r_U.X),
            T: r_U.T,
        };
        let witnesses = TableWitnesses {
            w: &tables.w,
            ts: &tables.ts,
            inv_w: &tables.inv_w,
            inv_t: &tables.inv_t,
            eq_w: &tables.eq_w,
            eq_t: &tables.eq_t,
        };
        proof {
            assert(statement(U_bridged, claims) == s);
            assert(opening::<E>(r_W.W@, E1@, E2@, witnesses) == o);
        }
        let snark_spartan = match EE::prove(
            ck,
            &pk.pk_spartan,
            structure,
            &U_bridged,
            &r_W.W,
            &E1,
            &E2,
            claims,
            witnesses,
        ) {
            Ok(x) => x,
            Err(e) => {
                return Err(e);
            },
        };
        let r = CompressedSNARK {
            U_bridged,
            r_U_derand_comm_E: comm_E,
            comm_E2_bind,
            sigma_E2_equality,
            snark_spartan,
            zn,
            per_table_comm_L: tables.comm_L,
            per_table_comm_ts: tables.comm_ts,
            per_table_comm_inv_w: tables.comm_inv_w,
            per_table_comm_inv_t: tables.comm_inv_t,
            per_table_T_lookup: tables.T,
            per_table_r_logup: tables.r_logup,
            r_U_snapshot: None,
            l_u_X0_snapshot: None,
            ri_snapshot: None,
            i_snapshot: None,
            z0_snapshot: None,
        };
        proof {
            assert(r.statement() == s);
        }
        Ok(r)
    }
}

impl<E: Engine, EE: ClosingArgument<E>> CompressedSNARK<E, EE> {
    /// What an honest envelope rests on: the folded instance is satisfied, and the lookups in
    /// every table are opened.
    pub open spec fn honest(
        ck: CommitmentKey<E>,
        structure: Structure<E>,
        r_U: FoldedInstance<E>,
        r_W: FoldedWitness<E>,
        claims: TableClaims<E>,
        witnesses: TableWitnesses<E>,
    ) -> bool {
        let s = bridged_statement(ck, structure, r_U, r_W, claims);
        let o = bridged_opening(structure, r_W, witnesses);
        &&& structure.satisfied_by(ck, r_U, r_W)
        &&& counts_agree(s, o)
        &&& forall|j: int|
            0 <= j < s.comm_L.len() ==> #[trigger] table_opened(
                ck,
                structure.S.num_cons as nat,
                s,
                o,
                j,
            )
    }

    /// What an envelope carries of a satisfied folded instance: the scalar, the public values and
    /// the claim as they are; in place of its commitments those to the private values, to all
    /// weights, to the weights of the columns and to the weights of the rows, all without blinding;
    /// the weights of the rows are committed to a second time, on the generators behind those of
    /// the columns. The two halves add up to the whole.
    pub proof fn law_envelope_carries(
        self,
        ck: CommitmentKey<E>,
        structure: Structure<E>,
        digest: int,
        r_U: FoldedInstance<E>,
        r_W: FoldedWitness<E>,
        claims: TableClaims<E>,
        witnesses: TableWitnesses<E>,
    )
        requires
            structure.wf(),
            structure.satisfied_by(ck, r_U, r_W),
            self.made_from(ck, structure, digest, r_U, r_W, claims, witnesses),
        ensures
            ({
                let e = vals(r_W.E@);
                let l = structure.left as int;
                &&& self.U_bridged.u.val() == r_U.u.val()
                &&& vals(self.U_bridged.X@) == vals(r_U.X@)
                &&& self.U_bridged.T.val() == r_U.T.val()
                &&& self.U_bridged.comm_W.log() == ck.commitment(vals(r_W.W@), 0)
                &&& self.r_U_derand_comm_E.log() == ck.commitment(e, 0)
                &&& self.U_bridged.comm_E1.log() == ck.commitment(e.subrange(0, l), 0)
                &&& self.U_bridged.comm_E2_pcs.log() == ck.commitment(
                    e.subrange(l, l + structure.right),
                    0,
                )
                &&& self.comm_E2_bind.log() == ck.commitment(
                    Seq::new(l as nat, |i: int| 0int) + e.subrange(l, l + structure.right),
                    0,
                )
                &&& (self.U_bridged.comm_E1.log() + self.comm_E2_bind.log())
                    % E::Scalar::modulus() == self.r_U_derand_comm_E.log()
                &&& vecs(self.per_table_T_lookup@) == vecs(claims.T_lookup@)
                &&& vals(self.per_table_r_logup@) == vals(claims.r_logup@)
                &&& logs::<E>(self.per_table_comm_L@) == logs::<E>(claims.comm_L@)
                &&& logs::<E>(self.per_table_comm_ts@) == logs::<E>(claims.comm_ts@)
                &&& logs::<E>(self.per_table_comm_inv_w@) == logs::<E>(claims.comm_inv_w@)
                &&& logs::<E>(self.per_table_comm_inv_t@) == logs::<E>(claims.comm_inv_t@)
            }),
    {
        let e = vals(r_W.E@);
        let l = structure.left as int;
        assert(e.len() == r_W.E@.len());
        law_derandomized(ck, vals(r_W.W@), r_W.r_W.val());
        law_derandomized(ck, e, r_W.r_E.val());
        law_additive_binding(ck, e.take(l), e.skip(l), 0, 0, 0);
        assert(e.take(l) + e.skip(l) =~= e);
        assert(e.take(l) =~= e.subrange(0, l));
        assert(e.skip(l) =~= e.subrange(l, l + structure.right));
        assert(self.statement().T_lookup == vecs(self.per_table_T_lookup@));
        assert(self.statement().r_logup == vals(self.per_table_r_logup@));
    }

    /// The proof of equal openings in an envelope is made with the masks that are given: it commits
    /// to the mask on both sides under the two blindings, and its answer is, place by place, the mask
    /// plus the challenge times the weight of the row, with the two blindings as they are.
    pub proof fn law_envelope_masked(
        self,
        ck: CommitmentKey<E>,
        structure: Structure<E>,
        digest: int,
        r_W: FoldedWitness<E>,
        masks: Masks<E>,
    )
        requires
            structure.wf(),
            r_W.E@.len() == structure.left + structure.right,
            self.masked_by(ck, structure, digest, r_W, masks),
        ensures
            ({
                let p = E::Scalar::modulus();
                let a = self.sigma_E2_equality;
                let l = structure.left as nat;
                let alpha = E::transcript_challenge(self.equality_log(digest));
                &&& masks.rho@.len() == structure.right
                &&& a.z@.len() == structure.right
                &&& a.T_bind.log() == ck.commitment(
                    Seq::new(l, |i: int| 0int) + vals(masks.rho@),
                    masks.sigma_bind.val(),
                )
                &&& a.T_pcs.log() == ck.commitment(vals(masks.rho@), masks.sigma_pcs.val())
                &&& forall|i: int|
                    0 <= i < structure.right ==> (#[trigger] a.z@[i]).val() == (
                    masks.rho@[i].val() + alpha * r_W.E@[l + i].val()) % p
                &&& a.z_r_bind.val() == masks.sigma_bind.val() % p
                &&& a.z_r_pcs.val() == masks.sigma_pcs.val() % p
            }),
    {
        let p = E::Scalar::modulus();
        let a = self.sigma_E2_equality;
        let l = structure.left as int;
        let t = sigma_absorbed::<E>(
            envelope_start::<E>(digest),
            self.r_U_derand_comm_E.log(),
            self.U_bridged.comm_E1.log(),
            self.comm_E2_bind.log(),
            self.U_bridged.comm_E2_pcs.log(),
            a.T_bind.log(),
            a.T_pcs.log(),
        );
        assert(t.log.push(TranscriptEvent::Squeeze("sigma_E2_equality_alpha"@))
            =~= self.equality_log(digest));
        let alpha = self.equality_challenge(digest);
        assert(vals(masks.rho@).len() == masks.rho@.len());
        assert(vals(a.z@).len() == a.z@.len());
        assert(vals(r_W.E@).len() == r_W.E@.len());
        assert(alpha * 0 == 0) by (nonlinear_arith);
        assert forall|i: int| 0 <= i < structure.right implies (#[trigger] a.z@[i]).val() == (
        masks.rho@[i].val() + alpha * r_W.E@[l + i].val()) % p by {
            assert(vals(a.z@)[i] == a.z@[i].val());
            assert(second_half(structure, r_W)[i] == r_W.E@[l + i].val());
            assert(vals(masks.rho@)[i] == masks.rho@[i].val());
        }
    }

    /// Without its blindings, a satisfied folded instance is opened by its witness.
    pub proof fn law_honest_closes(
        ck: CommitmentKey<E>,
        structure: Structure<E>,
        r_U: FoldedInstance<E>,
        r_W: FoldedWitness<E>,
        claims: TableClaims<E>,
        witnesses: TableWitnesses<E>,
    )
        requires
            structure.wf(),
            Self::honest(ck, structure, r_U, r_W, claims, witnesses),
        ensures
            closes(
                ck,
                structure,
                bridged_statement(ck, structure, r_U, r_W, claims),
                bridged_opening(structure, r_W, witnesses),
            ),
    {
        law_derandomized(ck, vals(r_W.W@), r_W.r_W.val());
    }

    /// The envelope of a satisfied folded instance with honest lookups is accepted, whatever the
    /// number of steps and the first state, as long as nothing ties it to a chain.
    pub proof fn law_honest_envelope_verifies(
        self,
        vk: VerifierKey<E, EE>,
        digest: int,
        ck: CommitmentKey<E>,
        structure: Structure<E>,
        r_U: FoldedInstance<E>,
        r_W: FoldedWitness<E>,
        claims: TableClaims<E>,
        witnesses: TableWitnesses<E>,
        num_steps: nat,
        z0: Seq<int>,
    )
        requires
            structure.wf(),
            vk.belongs_to(ck, structure),
            digest == EE::vk_digest(vk.vk_spartan),
            Self::honest(ck, structure, r_U, r_W, claims, witnesses),
            self.made_from(ck, structure, digest, r_U, r_W, claims, witnesses),
            self.snapshot_rejection(vk.pp_digest.val(), num_steps, z0) is None,
            self.k() < MAX_ROUNDS,
        ensures
            self.rejection(vk, num_steps, z0, vals(self.zn@)) is None,
    {
        let p = E::Scalar::modulus();
        E::Scalar::lemma_modulus();
        let s = bridged_statement(ck, structure, r_U, r_W, claims);
        let e = vals(r_W.E@);
        Self::law_honest_closes(ck, structure, r_U, r_W, claims, witnesses);
        law_derandomized(ck, e, r_W.r_E.val());
        assert(e =~= first_half(structure, r_W) + second_half(structure, r_W));
        law_additive_binding(
            ck,
            first_half(structure, r_W),
            second_half(structure, r_W),
            0,
            0,
            0,
        );
        assert(self.statement().comm_L.len() == self.k());
        assert(self.statement().comm_ts.len() == self.per_table_comm_ts@.len());
        assert(self.statement().comm_inv_w.len() == self.per_table_comm_inv_w@.len());
        assert(self.statement().comm_inv_t.len() == self.per_table_comm_inv_t@.len());
        assert(self.statement().T_lookup.len() == self.per_table_T_lookup@.len());
        assert(EE::vk_for(vk.vk_spartan, ck, structure));
        assert(EE::rejection(vk.vk_spartan, s, self.snark_spartan) is None);
        assert(self.equality_rejection(vk.ck, vk.structure, digest) == self.equality_rejection(
            ck,
            structure,
            digest,
        ));
    }

    /// An accepted envelope binds the weights: the commitments to the halves add up to that of
    /// the whole.
    pub proof fn law_accepted_adds_up(
        self,
        vk: VerifierKey<E, EE>,
        num_steps: nat,
        z0: Seq<int>,
        zn: Seq<int>,
    )
        requires
            self.rejection(vk, num_steps, z0, zn) is None,
        ensures
            self.adds_up(),
            self.equality_rejection(vk.ck, vk.structure, EE::vk_digest(vk.vk_spartan)) is None,
            EE::rejection(vk.vk_spartan, self.statement(), self.snark_spartan) is None,
            zn == vals(self.zn@),
    {
    }

    /// An envelope is accepted exactly if all of this holds. The commitments to the two halves of
    /// the weights add up to the commitment to the whole. The answer of the proof of equal openings
    /// is as long as the second half, and opens the two masked commitments: on the generators
    /// behind the first half, and on the first ones. There is as much of everything for each table.
    /// Where the envelope is tied to a chain, the first state and the number of steps are the
    /// caller's, the public value of the last step is the hash of the last state, and the
    /// commitments to the lookups and multiplicities of every table are those of the folded
    /// instance. The closing argument is accepted. The last state is the caller's.
    pub proof fn law_accepted_exactly(
        self,
        vk: VerifierKey<E, EE>,
        num_steps: nat,
        z0: Seq<int>,
        zn: Seq<int>,
    )
        ensures
            self.rejection(vk, num_steps, z0, zn) is None <==> {
                let p = E::Scalar::modulus();
                let k = self.per_table_comm_L@.len();
                let a = self.sigma_E2_equality;
                let alpha = E::transcript_challenge(
                    seq![
                        TranscriptEvent::Absorb(
                            "dom"@,
                            encode_utf8("NeutronCompressedSNARK_envelope"@),
                        ),
                        TranscriptEvent::Absorb(
                            "vk"@,
                            E::Scalar::bytes(EE::vk_digest(vk.vk_spartan)),
                        ),
                        TranscriptEvent::Absorb(
                            "r_U_comm_E"@,
                            E::GE::bytes(self.r_U_derand_comm_E.log()),
                        ),
                        TranscriptEvent::Absorb(
                            "comm_E1"@,
                            E::GE::bytes(self.U_bridged.comm_E1.log()),
                        ),
                        TranscriptEvent::Absorb(
                            "comm_E2_bind"@,
                            E::GE::bytes(self.comm_E2_bind.log()),
                        ),
                        TranscriptEvent::Absorb(
                            "comm_E2_pcs"@,
                            E::GE::bytes(self.U_bridged.comm_E2_pcs.log()),
                        ),
                        TranscriptEvent::Absorb("sigma_T_bind"@, E::GE::bytes(a.T_bind.log())),
                        TranscriptEvent::Absorb("sigma_T_pcs"@, E::GE::bytes(a.T_pcs.log())),
                        TranscriptEvent::Squeeze("sigma_E2_equality_alpha"@),
                    ],
                );
                let U = self.r_U_snapshot->Some_0;
                &&& (self.U_bridged.comm_E1.log() + self.comm_E2_bind.log()) % p
                    == self.r_U_derand_comm_E.log()
                &&& a.z@.len() == vk.structure.right
                &&& vk.ck.commitment(
                    Seq::new(vk.structure.left as nat, |i: int| 0int) + vals(a.z@),
                    a.z_r_bind.val(),
                ) == (a.T_bind.log() + alpha * self.comm_E2_bind.log()) % p
                &&& vk.ck.commitment(vals(a.z@), a.z_r_pcs.val()) == (a.T_pcs.log() + alpha
                    * self.U_bridged.comm_E2_pcs.log()) % p
                &&& self.per_table_comm_ts@.len() == k
                &&& self.per_table_comm_inv_w@.len() == k
                &&& self.per_table_comm_inv_t@.len() == k
                &&& self.per_table_T_lookup@.len() == k
                &&& k < 65535
                &&& self.r_U_snapshot is Some && self.l_u_X0_snapshot is Some
                    && self.ri_snapshot is Some && self.i_snapshot is Some
                    && self.z0_snapshot is Some ==> {
                    &&& vals(self.z0_snapshot->Some_0@) == z0
                    &&& self.i_snapshot->Some_0 == num_steps
                    &&& self.l_u_X0_snapshot->Some_0.val() == state_hash::<E>(
                        vk.pp_digest.val(),
                        (num_steps as int) % p,
                        z0,
                        zn,
                        U@,
                        self.ri_snapshot->Some_0.val(),
                    )
                    &&& U.comm_L is Some
                    &&& U.comm_ts is Some
                    &&& U.comm_L->Some_0@.len() == k
                    &&& U.comm_ts->Some_0@.len() == k
                    &&& forall|j: int|
                        0 <= j < k ==> (#[trigger] self.per_table_comm_L@[j]).log()
                            == U.comm_L->Some_0@[j].log()
                    &&& forall|j: int|
                        0 <= j < k ==> (#[trigger] self.per_table_comm_ts@[j]).log()
                            == U.comm_ts->Some_0@[j].log()
                }
                &&& EE::rejection(
                    vk.vk_spartan,
                    Statement {
                        comm_W: self.U_bridged.comm_W.log(),
                        comm_E1: self.U_bridged.comm_E1.log(),
                        comm_E2_pcs: self.U_bridged.comm_E2_pcs.log(),
                        u: self.U_bridged.u.val(),
                        X: vals(self.U_bridged.X@),
                        T: self.U_bridged.T.val(),
                        T_lookup: Seq::new(
                            self.per_table_T_lookup@.len(),
                            |j: int| vals(self.per_table_T_lookup@[j]@),
                        ),
                        r_logup: vals(self.per_table_r_logup@),
                        comm_L: logs::<E>(self.per_table_comm_L@),
                        comm_ts: logs::<E>(self.per_table_comm_ts@),
                        comm_inv_w: logs::<E>(self.per_table_comm_inv_w@),
                        comm_inv_t: logs::<E>(self.per_table_comm_inv_t@),
                    },
                    self.snark_spartan,
                ) is None
                &&& zn == vals(self.zn@)
            },
    {
        let p = E::Scalar::modulus();
        E::Scalar::lemma_modulus();
        let k = self.per_table_comm_L@.len();
        let a = self.sigma_E2_equality;
        let digest = EE::vk_digest(vk.vk_spartan);
        let t = sigma_absorbed::<E>(
            envelope_start::<E>(digest),
            self.r_U_derand_comm_E.log(),
            self.U_bridged.comm_E1.log(),
            self.comm_E2_bind.log(),
            self.U_bridged.comm_E2_pcs.log(),
            a.T_bind.log(),
            a.T_pcs.log(),
        );
        assert(t.log.push(TranscriptEvent::Squeeze("sigma_E2_equality_alpha"@))
            =~= self.equality_log(digest));
        let alpha = sigma_alpha::<E>(t);
        lemma_shifted(p, a.T_bind.log(), alpha * self.comm_E2_bind.log());
        lemma_shifted(p, a.T_pcs.log(), alpha * self.U_bridged.comm_E2_pcs.log());
        assert(vals(a.z@).len() == a.z@.len());
        assert(vecs(self.per_table_T_lookup@) =~= Seq::new(
            self.per_table_T_lookup@.len(),
            |j: int| vals(self.per_table_T_lookup@[j]@),
        ));
        if self.has_snapshot() {
            let U = self.r_U_snapshot->Some_0;
            if U.comm_L is Some && U.comm_ts is Some && U.comm_L->Some_0@.len() == k
                && U.comm_ts->Some_0@.len() == k && self.per_table_comm_ts@.len() == k {
                let l = logs::<E>(self.per_table_comm_L@);
                let m = logs::<E>(self.per_table_comm_ts@);
                let (u, v) = (logs::<E>(U.comm_L->Some_0@), logs::<E>(U.comm_ts->Some_0@));
                lemma_tables_met(l, m, u, v, 0);
                if tables_rejection(l, m, u, v, 0) is None {
                    assert forall|j: int| 0 <= j < k implies (
                    #[trigger] self.per_table_comm_L@[j]).log() == U.comm_L->Some_0@[j].log() by {
                        assert(l[j] == u[j]);
                    }
                    assert forall|j: int| 0 <= j < k implies (
                    #[trigger] self.per_table_comm_ts@[j]).log() == U.comm_ts->Some_0@[j].log() by {
                        assert(l[j] == u[j] && m[j] == v[j]);
                    }
                } else {
                    let j = choose|j: int|
                        0 <= j < l.len() && (#[trigger] l[j] != u[j] || m[j] != v[j]);
                    assert(self.per_table_comm_L@[j].log() == l[j]);
                    assert(self.per_table_comm_ts@[j].log() == m[j]);
                }
            }
        }
    }

    /// What the transcript has seen when it gives out the challenge of the proof of equal openings,
    /// and the label of the challenge: the name of the protocol, the digest of the key, all
    /// commitments to the weights and both commitments of the proof.
    pub open spec fn equality_log(self, digest: int) -> Seq<TranscriptEvent> {
        seq![
            TranscriptEvent::Absorb("dom"@, encode_utf8("NeutronCompressedSNARK_envelope"@)),
            TranscriptEvent::Absorb("vk"@, E::Scalar::bytes(digest)),
            TranscriptEvent::Absorb("r_U_comm_E"@, E::GE::bytes(self.r_U_derand_comm_E.log())),
            TranscriptEvent::Absorb("comm_E1"@, E::GE::bytes(self.U_bridged.comm_E1.log())),
            TranscriptEvent::Absorb("comm_E2_bind"@, E::GE::bytes(self.comm_E2_bind.log())),
            TranscriptEvent::Absorb(
                "comm_E2_pcs"@,
                E::GE::bytes(self.U_bridged.comm_E2_pcs.log()),
            ),
            TranscriptEvent::Absorb(
                "sigma_T_bind"@,
                E::GE::bytes(self.sigma_E2_equality.T_bind.log()),
            ),
            TranscriptEvent::Absorb(
                "sigma_T_pcs"@,
                E::GE::bytes(self.sigma_E2_equality.T_pcs.log()),
            ),
            TranscriptEvent::Squeeze("sigma_E2_equality_alpha"@),
        ]
    }

    /// The first test that an envelope fails is what it is rejected for.
    pub proof fn law_rejected_in_order(
        self,
        vk: VerifierKey<E, EE>,
        num_steps: nat,
        z0: Seq<int>,
        zn: Seq<int>,
    )
        ensures
            ({
                let why = self.rejection(vk, num_steps, z0, zn);
                let sum = (self.U_bridged.comm_E1.log() + self.comm_E2_bind.log())
                    % E::Scalar::modulus();
                let equal = self.equality_rejection(
                    vk.ck,
                    vk.structure,
                    EE::vk_digest(vk.vk_spartan),
                );
                let k = self.per_table_comm_L@.len();
                let counted = {
                    &&& self.per_table_comm_ts@.len() == k
                    &&& self.per_table_comm_inv_w@.len() == k
                    &&& self.per_table_comm_inv_t@.len() == k
                    &&& self.per_table_T_lookup@.len() == k
                };
                let bound = sum == self.r_U_derand_comm_E.log() && equal is None;
                &&& sum != self.r_U_derand_comm_E.log() ==> why == Some(
                    Rejection::Reason(ADDITIVE@),
                )
                &&& sum == self.r_U_derand_comm_E.log() && equal is Some ==> why == equal
                &&& bound && !counted ==> why == Some(Rejection::Reason(INCONSISTENT@))
                &&& bound && counted && self.r_U_snapshot is Some
                    && self.l_u_X0_snapshot is Some && self.ri_snapshot is Some
                    && self.i_snapshot is Some && self.z0_snapshot is Some ==> {
                    let begun = vals(self.z0_snapshot->Some_0@) == z0;
                    let reached = self.i_snapshot->Some_0 == num_steps;
                    let hashed = self.l_u_X0_snapshot->Some_0.val() == state_hash::<E>(
                        vk.pp_digest.val(),
                        (num_steps as int) % E::Scalar::modulus(),
                        z0,
                        vals(self.zn@),
                        self.r_U_snapshot->Some_0@,
                        self.ri_snapshot->Some_0.val(),
                    );
                    &&& !begun ==> why == Some(Rejection::Reason(Z0_MISMATCH@))
                    &&& begun && !reached ==> why == Some(Rejection::Reason(STEPS_MISMATCH@))
                    &&& begun && reached && !hashed ==> why == Some(
                        Rejection::Reason(HASH_MISMATCH@),
                    )
                }
            }),
    {
    }

    /// An accepted envelope that is tied to a chain carries the first state, the number of steps
    /// and the hash of the last state, and the commitments of its tables are those of the folded
    /// instance.
    pub proof fn law_accepted_is_tied(
        self,
        vk: VerifierKey<E, EE>,
        num_steps: nat,
        z0: Seq<int>,
        zn: Seq<int>,
    )
        requires
            self.has_snapshot(),
            self.rejection(vk, num_steps, z0, zn) is None,
        ensures
            vals(self.z0_snapshot->Some_0@) == z0,
            self.i_snapshot->Some_0 == num_steps,
            self.l_u_X0_snapshot->Some_0.val() == state_hash::<E>(
                vk.pp_digest.val(),
                (num_steps as int) % E::Scalar::modulus(),
                z0,
                zn,
                self.r_U_snapshot->Some_0@,
                self.ri_snapshot->Some_0.val(),
            ),
            self.r_U_snapshot->Some_0.comm_L is Some,
            self.r_U_snapshot->Some_0.comm_ts is Some,
            logs::<E>(self.per_table_comm_L@) == logs::<E>(
                self.r_U_snapshot->Some_0.comm_L->Some_0@,
            ),
            logs::<E>(self.per_table_comm_ts@) == logs::<E>(
                self.r_U_snapshot->Some_0.comm_ts->Some_0@,
            ),
    {
        let U = self.r_U_snapshot->Some_0;
        lemma_tables_agree(
            logs::<E>(self.per_table_comm_L@),
            logs::<E>(self.per_table_comm_ts@),
            logs::<E>(U.comm_L->Some_0@),
            logs::<E>(U.comm_ts->Some_0@),
            0,
        );
        assert(logs::<E>(self.per_table_comm_L@) =~= logs::<E>(U.comm_L->Some_0@));
        assert(logs::<E>(self.per_table_comm_ts@) =~= logs::<E>(U.comm_ts->Some_0@));
    }

    /// Makes an envelope of a folded instance and of its lookups.
    pub fn prove_from_parts_with_logup(
        ck: &CommitmentKey<E>,
        structure: &Structure<E>,
        pk: &ProverKey<E, EE>,
        r_U: &FoldedInstance<E>,
        r_W: &FoldedWitness<E>,
        zn: Vec<E::Scalar>,
        per_table_w: Vec<Vec<E::Scalar>>,
        per_table_ts: Vec<Vec<E::Scalar>>,
        per_table_inv_w: Vec<Vec<E::Scalar>>,
        per_table_inv_t: Vec<Vec<E::Scalar>>,
        per_table_T: Vec<Vec<E::Scalar>>,
        per_table_eq_w: Vec<Vec<E::Scalar>>,
        per_table_eq_t: Vec<Vec<E::Scalar>>,
        r_logup_per_table: Vec<E::Scalar>,
        per_table_comm_L: Vec<E::GE>,
        per_table_comm_ts: Vec<E::GE>,
        per_table_comm_inv_w: Vec<E::GE>,
        per_table_comm_inv_t: Vec<E::GE>,
    ) -> (r: Result<Self, NovaError>)
        requires
            structure.wf(),
            r_W.E@.len() == structure.left + structure.right,
            r_W.E@.len() <= ck.ck@.len(),
            EE::pk_for(pk.pk_spartan, *ck, *structure),
            per_table_w@.len() == r_logup_per_table@.len(),
            per_table_ts@.len() == r_logup_per_table@.len(),
            per_table_inv_w@.len() == r_logup_per_table@.len(),
            per_table_inv_t@.len() == r_logup_per_table@.len(),
            per_table_T@.len() == r_logup_per_table@.len(),
            per_table_eq_w@.len() == r_logup_per_table@.len(),
            per_table_eq_t@.len() == r_logup_per_table@.len(),
            per_table_comm_L@.len() == r_logup_per_table@.len(),
            per_table_comm_ts@.len() == r_logup_per_table@.len(),
            per_table_comm_inv_w@.len() == r_logup_per_table@.len(),
            per_table_comm_inv_t@.len() == r_logup_per_table@.len(),
        ensures
            ({
                let tables = LogUpTables {
                    w: per_table_w,
                    ts: per_table_ts,
                    inv_w: per_table_inv_w,
                    inv_t: per_table_inv_t,
                    T: per_table_T,
                    eq_w: per_table_eq_w,
                    eq_t: per_table_eq_t,
                    r_logup: r_logup_per_table,
                    comm_L: per_table_comm_L,
                    comm_ts: per_table_comm_ts,
                    comm_inv_w: per_table_comm_inv_w,
                    comm_inv_t: per_table_comm_inv_t,
                };
                &&& tables.r_logup@.len() >= MAX_ROUNDS ==> r is Err
                &&& r is Err ==> {
                    ||| r->Err_0 == NovaError::RandomnessUnavailable
                    ||| tables.r_logup@.len() >= MAX_ROUNDS && r->Err_0
                        == NovaError::InternalTranscriptError
                    ||| !closes(
                        *ck,
                        *structure,
                        bridged_statement(*ck, *structure, *r_U, *r_W, tables.claims()),
                        bridged_opening(*structure, *r_W, tables.witnesses()),
                    )
                }
                &&& r is Ok ==> {
                    &&& r->Ok_0.made_from(
                        *ck,
                        *structure,
                        EE::pk_digest(pk.pk_spartan),
                        *r_U,
                        *r_W,
                        tables.claims(),
                        tables.witnesses(),
                    )
                    &&& r->Ok_0.zn == zn
                    &&& r->Ok_0.claims() == tables.claims()
                    &&& r->Ok_0.untied()
                }
            }),
    {
        let masks = match draw_masks::<E>(structure.right) {
            Ok(x) => x,
            Err(e) => {
                return Err(e);
            },
        };
        let tables = LogUpTables {
            w: per_table_w,
            ts: per_table_ts,
            inv_w: per_table_inv_w,
            inv_t: per_table_inv_t,
            T: per_table_T,
            eq_w: per_table_eq_w,
            eq_t: per_table_eq_t,
            r_logup: r_logup_per_table,
            comm_L: per_table_comm_L,
            comm_ts: per_table_comm_ts,
            comm_inv_w: per_table_comm_inv_w,
            comm_inv_t: per_table_comm_inv_t,
        };
        Self::prove_masked(ck, structure, pk, r_U, r_W, zn, tables, &masks)
    }

    /// Makes an envelope of a folded instance without lookups.
    pub fn prove_from_parts(
        ck: &CommitmentKey<E>,
        structure: &Structure<E>,
        pk: &ProverKey<E, EE>,
        r_U: &FoldedInstance<E>,
        r_W: &FoldedWitness<E>,
        zn: Vec<E::Scalar>,
    ) -> (r: Result<Self, NovaError>)
        requires
            structure.wf(),
            r_W.E@.len() == structure.left + structure.right,
            r_W.E@.len() <= ck.ck@.len(),
            EE::pk_for(pk.pk_spartan, *ck, *structure),
        ensures
            r is Err ==> r->Err_0 == NovaError::RandomnessUnavailable || !structure.satisfied_by(
                *ck,
                *r_U,
                *r_W,
            ),
            r is Ok ==> {
                &&& r->Ok_0.made_without_tables(
                    *ck,
                    *structure,
                    EE::pk_digest(pk.pk_spartan),
                    *r_U,
                    *r_W,
                )
                &&& r->Ok_0.zn == zn
                &&& r->Ok_0.untied()
            },
    {
        let masks = match draw_masks::<E>(structure.right) {
            Ok(x) => x,
            Err(e) => {
                return Err(e);
            },
        };
        let tables = LogUpTables::<E>::none();
        let ghost given = tables;
        let r = Self::prove_masked(ck, structure, pk, r_U, r_W, zn, tables, &masks);
        proof {
            if structure.satisfied_by(*ck, *r_U, *r_W) {
                let s = bridged_statement(*ck, *structure, *r_U, *r_W, given.claims());
                let o = bridged_opening(*structure, *r_W, given.witnesses());
                assert(counts_agree(s, o));
                Self::law_honest_closes(
                    *ck,
                    *structure,
                    *r_U,
                    *r_W,
                    given.claims(),
                    given.witnesses(),
                );
            }
            if r is Ok {
                assert(r->Ok_0.claims() == given.claims());
                assert(given.counted() && given.r_logup@.len() == 0);
                assert(r->Ok_0.made_from(
                    *ck,
                    *structure,
                    EE::pk_digest(pk.pk_spartan),
                    *r_U,
                    *r_W,
                    given.claims(),
                    given.witnesses(),
                ));
            }
        }
        r
    }

    /// Lookups in random tables, with the commitments to them, are honest beside a satisfied
    /// folded instance.
    pub proof fn law_drawn_tables_are_honest(
        ck: CommitmentKey<E>,
        structure: Structure<E>,
        r_U: FoldedInstance<E>,
        r_W: FoldedWitness<E>,
        t: LogUpTables<E>,
        seed: Seq<u8>,
        word: u64,
    )
        requires
            structure.satisfied_by(ck, r_U, r_W),
            t.counted(),
            all_drawn(
                (t.w, t.ts, t.inv_w, t.inv_t, t.T, t.eq_w, t.eq_t, t.r_logup),
                seed,
                word,
                structure.S.num_cons as nat,
                t.r_logup@.len(),
            ),
            logs::<E>(t.comm_L@) == commitments(ck, vecs(t.w@)),
            logs::<E>(t.comm_ts@) == commitments(ck, vecs(t.ts@)),
            logs::<E>(t.comm_inv_w@) == commitments(ck, vecs(t.inv_w@)),
            logs::<E>(t.comm_inv_t@) == commitments(ck, vecs(t.inv_t@)),
        ensures
            Self::honest(ck, structure, r_U, r_W, t.claims(), t.witnesses()),
    {
        let p = E::Scalar::modulus();
        let n = structure.S.num_cons as nat;
        let s = bridged_statement(ck, structure, r_U, r_W, t.claims());
        let o = bridged_opening(structure, r_W, t.witnesses());
        assert(counts_agree(s, o));
        assert forall|j: int| 0 <= j < s.comm_L.len() implies #[trigger] table_opened(
            ck,
            n,
            s,
            o,
            j,
        ) by {
            assert(drawn_matches(
                p,
                drawn::<E::Scalar>(seed, word, n, j),
                vals(t.w@[j]@),
                vals(t.ts@[j]@),
                vals(t.inv_w@[j]@),
                vals(t.inv_t@[j]@),
                vals(t.T@[j]@),
                vals(t.eq_w@[j]@),
                vals(t.eq_t@[j]@),
                t.r_logup@[j].val(),
            ));
            assert(logs::<E>(t.comm_L@)[j] == commitments(ck, vecs(t.w@))[j]);
            assert(logs::<E>(t.comm_ts@)[j] == commitments(ck, vecs(t.ts@))[j]);
            assert(logs::<E>(t.comm_inv_w@)[j] == commitments(ck, vecs(t.inv_w@))[j]);
            assert(logs::<E>(t.comm_inv_t@)[j] == commitments(ck, vecs(t.inv_t@))[j]);
        }
    }

    /// The envelope of a satisfied folded instance and of lookups in random tables is accepted.
    pub proof fn law_drawn_envelope_verifies(
        self,
        vk: VerifierKey<E, EE>,
        ck: CommitmentKey<E>,
        structure: Structure<E>,
        r_U: FoldedInstance<E>,
        r_W: FoldedWitness<E>,
        t: LogUpTables<E>,
        seed: Seq<u8>,
        word: u64,
        num_steps: nat,
        z0: Seq<int>,
    )
        requires
            structure.wf(),
            vk.belongs_to(ck, structure),
            structure.satisfied_by(ck, r_U, r_W),
            t.counted(),
            t.r_logup@.len() < MAX_ROUNDS,
            all_drawn(
                (t.w, t.ts, t.inv_w, t.inv_t, t.T, t.eq_w, t.eq_t, t.r_logup),
                seed,
                word,
                structure.S.num_cons as nat,
                t.r_logup@.len(),
            ),
            logs::<E>(t.comm_L@) == commitments(ck, vecs(t.w@)),
            logs::<E>(t.comm_ts@) == commitments(ck, vecs(t.ts@)),
            logs::<E>(t.comm_inv_w@) == commitments(ck, vecs(t.inv_w@)),
            logs::<E>(t.comm_inv_t@) == commitments(ck, vecs(t.inv_t@)),
            self.made_from(
                ck,
                structure,
                EE::vk_digest(vk.vk_spartan),
                r_U,
                r_W,
                t.claims(),
                t.witnesses(),
            ),
            self.claims() == t.claims(),
            self.untied(),
        ensures
            self.rejection(vk, num_steps, z0, vals(self.zn@)) is None,
    {
        Self::law_drawn_tables_are_honest(ck, structure, r_U, r_W, t, seed, word);
        assert(self.per_table_comm_L@.len() == t.r_logup@.len()) by {
            assert(self.claims().comm_L == t.claims().comm_L);
        }
        self.law_honest_envelope_verifies(
            vk,
            EE::vk_digest(vk.vk_spartan),
            ck,
            structure,
            r_U,
            r_W,
            t.claims(),
            t.witnesses(),
            num_steps,
            z0,
        );
    }

    /// The envelope is made from a folded instance without tables.
    pub open spec fn made_without_tables(
        self,
        ck: CommitmentKey<E>,
        structure: Structure<E>,
        digest: int,
        r_U: FoldedInstance<E>,
        r_W: FoldedWitness<E>,
    ) -> bool {
        exists|tables: LogUpTables<E>|
            #![trigger tables.counted()]
            tables.counted() && tables.r_logup@.len() == 0 && self.claims() == tables.claims()
                && self.made_from(
                ck,
                structure,
                digest,
                r_U,
                r_W,
                tables.claims(),
                tables.witnesses(),
            )
    }

    /// The envelope of a satisfied folded instance is accepted.
    pub proof fn law_plain_envelope_verifies(
        self,
        vk: VerifierKey<E, EE>,
        ck: CommitmentKey<E>,
        structure: Structure<E>,
        r_U: FoldedInstance<E>,
        r_W: FoldedWitness<E>,
        num_steps: nat,
        z0: Seq<int>,
    )
        requires
            structure.wf(),
            vk.belongs_to(ck, structure),
            structure.satisfied_by(ck, r_U, r_W),
            self.made_without_tables(ck, structure, EE::vk_digest(vk.vk_spartan), r_U, r_W),
            self.untied(),
        ensures
            self.rejection(vk, num_steps, z0, vals(self.zn@)) is None,
    {
        let digest = EE::vk_digest(vk.vk_spartan);
        let tables = choose|tables: LogUpTables<E>|
            #![trigger tables.counted()]
            tables.counted() && tables.r_logup@.len() == 0 && self.claims() == tables.claims()
                && self.made_from(
                ck,
                structure,
                digest,
                r_U,
                r_W,
                tables.claims(),
                tables.witnesses(),
            );
        let s = bridged_statement(ck, structure, r_U, r_W, tables.claims());
        let o = bridged_opening(structure, r_W, tables.witnesses());
        assert(counts_agree(s, o));
        assert(self.per_table_comm_L@.len() == 0) by {
            assert(self.claims().comm_L == tables.claims().comm_L);
        }
        self.law_honest_envelope_verifies(
            vk,
            digest,
            ck,
            structure,
            r_U,
            r_W,
            tables.claims(),
            tables.witnesses(),
            num_steps,
            z0,
        );
    }
}

/// Commitments among which no mismatch is found are the same.
proof fn lemma_tables_agree(a: Seq<int>, b: Seq<int>, c: Seq<int>, d: Seq<int>, j: nat)
    requires
        tables_rejection(a, b, c, d, j) is None,
    ensures
        forall|i: int|
            #![trigger a[i]]
            #![trigger b[i]]
            j <= i < a.len() ==> a[i] == c[i] && b[i] == d[i],
    decreases a.len() - j,
{
    if j < a.len() {
        lemma_tables_agree(a, b, c, d, (j + 1) as nat);
    }
}

/// No table is rejected exactly if all commitments agree.
proof fn lemma_tables_met(a: Seq<int>, b: Seq<int>, c: Seq<int>, d: Seq<int>, j: nat)
    ensures
        tables_rejection(a, b, c, d, j) is None <==> forall|i: int|
            j <= i < a.len() ==> !(#[trigger] a[i] != c[i] || b[i] != d[i]),
    decreases a.len() - j,
{
    if tables_rejection(a, b, c, d, j) is None {
        lemma_tables_agree(a, b, c, d, j);
    } else if a[j as int] == c[j as int] && b[j as int] == d[j as int] {
        lemma_tables_met(a, b, c, d, (j + 1) as nat);
        let i = choose|i: int| j + 1 <= i < a.len() && (#[trigger] a[i] != c[i] || b[i] != d[i]);
        assert(a[i] != c[i] || b[i] != d[i]);
    } else {
        assert(a[j as int] != c[j as int] || b[j as int] != d[j as int]);
    }
}

/// A product may be reduced before it is added.
proof fn lemma_shifted(p: int, t: int, m: int)
    requires
        p > 0,
    ensures
        (t + m % p) % p == (t + m) % p,
{
    lemma_residue(p, m);
    lemma_cong_add(p, t, m % p, t, m);
}

} // verus!
