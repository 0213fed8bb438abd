//! A chain of folds: one step after the other.

use crate::bundle::{
    bundle_committed, committed, fresh_lookups, law_running_mixed, public_bundles, public_of,
    running_of, table_column, table_gamma, PerTableBundle,
};
use crate::challenges::law_native_fold_said;
use crate::circuit::nifs::{fold_r_b, folds_to, law_fold_unique};
use crate::circuit::{
    finished_short, folded_into, law_state_inputs_determine, next_hash, next_instance, refused_as,
    renewed, some_tables, state_hash, state_inputs, step_checks, step_input, step_start, LookupVal,
    NeutronAugmentedCircuit, NeutronAugmentedCircuitInputs, StepVal,
};
use crate::columns::{LookupShape, MultiColumnLookupTable};
use crate::commitment::{copy_scalars, lemma_msm_zeros, logs, CommitmentKey};
use crate::compressed_snark::closing::key_fits;
use crate::engine::{Engine, Group};
use crate::errors::{NovaError, SynthesisError};
use crate::field::{lemma_cong_add, lemma_reduced, lemma_residue, PrimeField};
use crate::fold_prover::{
    fold_follows, fold_ready, fold_shaped, inverses_sent, law_prover_folds, logs_or_zeros,
    message_for, points_follow, table_points, FoldMessage, FoldOutput, BUNDLE_SHAPE,
};
use crate::frontend::{empty_layout, AllocatedNum, ConstraintSystem, Valuation};
use crate::gadgets::{nums_at, nums_valid};
use crate::nifs::{before_renewal, carried_claims, fold_input, folded_natively, opt_len, poly_vals};
use crate::point::absorbs;
use crate::poly::{padded_poly, vals};
use crate::public_params::{encodes, law_satisfied_is_step, PublicParams};
use crate::random::random_scalar;
use crate::relation::{
    coords, default_folded, opt_coords, same_layout, zeros, FoldedInstance, FoldedVal,
    LookupPayloadPublicMultiTable, LookupRunningWitness, R1CSInstance, NIFS,
};
use crate::side::{lemma_rows_vanish, weightless};
use crate::state::{hash_of_state, same_scalars};
use crate::step_circuit::StepCircuit;
use crate::structure::{full_vector, grid, FoldedWitness, R1CSWitness, Structure};
use vstd::arithmetic::power2::{
    lemma2_to64, lemma_pow2_adds, lemma_pow2_pos, lemma_pow2_strictly_increases, lemma_pow2_unfold,
    pow2,
};
use vstd::prelude::*;

verus! {

/// A step circuit that looks values up in tables.
pub trait LookupStepCircuit<E: Engine>: StepCircuit<E::Scalar> {
    /// The lookups of step `i`, table by table, given what was folded before.
    fn per_table_bundles_at_step(
        &self,
        ck: &CommitmentKey<E>,
        i: usize,
        prior_running_lws: &Vec<LookupRunningWitness<E>>,
    ) -> (r: Result<Vec<PerTableBundle<E>>, NovaError>);
}

/// A chain of folds: the folded instance, the instance of the last step, and the states.
pub struct RecursiveSNARK<E: Engine, C: StepCircuit<E::Scalar>> {
    /// The first state.
    pub z0: Vec<E::Scalar>,
    /// The witness of the folded instance.
    pub r_W: FoldedWitness<E>,
    /// The folded instance.
    pub r_U: FoldedInstance<E>,
    /// The blinding of the last hash.
    pub ri: E::Scalar,
    /// The witness of the last step.
    pub l_w: R1CSWitness<E>,
    /// The instance of the last step.
    pub l_u: R1CSInstance<E>,
    /// The number of steps.
    pub i: usize,
    /// The last state.
    pub zi: Vec<E::Scalar>,
    /// The lookups folded so far, table by table.
    pub running_lws: Vec<LookupRunningWitness<E>>,
    pub _p: std::marker::PhantomData<C>,
}

/// The number of the step that the last hash is for: the first step is laid out when the chain is
/// begun.
pub open spec fn hashed_step(i: nat) -> nat {
    if i == 0 {
        1
    } else {
        i
    }
}

impl<E: Engine, C: StepCircuit<E::Scalar>> RecursiveSNARK<E, C> {
    /// The folded instance and the instance of the last step are satisfied, and the public value
    /// of the last step is the hash of the state.
    pub open spec fn wf(self, pp: PublicParams<E, C>) -> bool {
        &&& self.z0@.len() == pp.F_arity
        &&& self.zi@.len() == pp.F_arity
        &&& fold_shaped(pp.ck, pp.structure, self.r_U, self.r_W, self.l_u, self.l_w)
        &&& pp.structure.satisfied_by(pp.ck, self.r_U, self.r_W)
        &&& pp.structure.S.satisfied_by(pp.ck, self.l_u, self.l_w)
        &&& self.l_u.X@[0].val() == state_hash::<E>(
            pp.digest_val(),
            (hashed_step(self.i as nat) as int) % E::Scalar::modulus(),
            vals(self.z0@),
            vals(self.zi@),
            self.r_U@,
            self.ri.val(),
        )
        &&& self.running_lws@.len() == pp.lookup_fold_k
        &&& if pp.lookup_fold_k > 0 {
            &&& opt_len(self.r_U.T_lookup) == pp.lookup_fold_k
            &&& opt_len(self.r_U.comm_L) == pp.lookup_fold_k
            &&& opt_len(self.r_U.comm_ts) == pp.lookup_fold_k
        } else {
            &&& self.r_U.T_lookup is None
            &&& self.r_U.comm_L is None
            &&& self.r_U.comm_ts is None
        }
    }

    /// The commitments of the folded instance are those to the lookups folded so far.
    pub open spec fn lookups_committed(self, pp: PublicParams<E, C>) -> bool {
        committed(
            pp.ck,
            self.running_lws@,
            table_points::<E>(self.r_U.comm_L),
            table_points::<E>(self.r_U.comm_ts),
        )
    }

    /// Why the chain is rejected, if it is.
    pub open spec fn rejection(
        self,
        pp: PublicParams<E, C>,
        num_steps: nat,
        z0: Seq<int>,
    ) -> Option<ChainRejection> {
        if num_steps == 0 || self.i != num_steps || self.r_U.X@.len() != 1 || self.l_u.X@.len() != 1
        {
            Some(ChainRejection::NumSteps)
        } else if vals(self.z0@) != z0 {
            Some(ChainRejection::InitialState)
        } else if self.l_u.X@[0].val() != state_hash::<E>(
            pp.digest_val(),
            (num_steps as int) % E::Scalar::modulus(),
            z0,
            vals(self.zi@),
            self.r_U@,
            self.ri.val(),
        ) {
            Some(ChainRejection::Hash)
        } else if !pp.structure.satisfied_by(pp.ck, self.r_U, self.r_W) {
            Some(ChainRejection::Unsatisfied)
        } else if !pp.structure.S.satisfied_by(pp.ck, self.l_u, self.l_w) {
            Some(ChainRejection::Unsatisfied)
        } else {
            None
        }
    }

    /// A chain is accepted exactly if it has the number of steps that is asked for, at least one,
    /// and the first state that is asked for, one public value on either side, the public value of
    /// the last step is the hash of the state that the chain gives back, and both the folded
    /// instance and that of the last step are satisfied by their witnesses. The first of these that
    /// fails is what the chain is rejected for.
    pub proof fn law_accepted_chain(self, pp: PublicParams<E, C>, num_steps: nat, z0: Seq<int>)
        ensures
            ({
                let counted = {
                    &&& num_steps > 0
                    &&& self.i == num_steps
                    &&& self.r_U.X@.len() == 1
                    &&& self.l_u.X@.len() == 1
                };
                let begun = vals(self.z0@) == z0;
                let hashed = self.l_u.X@[0].val() == state_hash::<E>(
                    pp.pp_digest.val(),
                    (num_steps as int) % E::Scalar::modulus(),
                    z0,
                    vals(self.zi@),
                    self.r_U@,
                    self.ri.val(),
                );
                let satisfied = {
                    &&& pp.structure.satisfied_by(pp.ck, self.r_U, self.r_W)
                    &&& pp.structure.S.satisfied_by(pp.ck, self.l_u, self.l_w)
                };
                let why = self.rejection(pp, num_steps, z0);
                &&& why is None <==> counted && begun && hashed && satisfied
                &&& why == Some(ChainRejection::NumSteps) <==> !counted
                &&& why == Some(ChainRejection::InitialState) <==> counted && !begun
                &&& why == Some(ChainRejection::Hash) <==> counted && begun && !hashed
                &&& why == Some(ChainRejection::Unsatisfied) <==> counted && begun && hashed
                    && !satisfied
            }),
    {
    }

    /// Behind an accepted chain of a circuit stands a step of that circuit: one that meets its
    /// demands, leads to some state and hands on some running instance, and whose hash of these
    /// is the hash of the state and of the folded instance of the chain. Where the oracle takes in
    /// the same for both hashes, the first states, the states after the step, the running
    /// instances and the numbers of steps are those of the chain.
    pub proof fn law_accepted_last_step(
        self,
        pp: PublicParams<E, C>,
        circuit: C,
        num_steps: nat,
        z0: Seq<int>,
    ) -> (r: (StepVal, LookupVal, FoldedVal, Seq<int>))
        requires
            pp.structure.S.num_io == 1,
            encodes::<E, C>(
                pp.structure.S,
                circuit,
                pp.lookup_fold_k as nat,
                pp.index_n_bits as nat,
            ),
            self.rejection(pp, num_steps, z0) is None,
        ensures
            ({
                let (v, l, U, z) = r;
                let k = pp.lookup_fold_k as nat;
                let p = E::Scalar::modulus();
                let (pp_d, zi, ri) = (pp.pp_digest.val(), vals(self.zi@), self.ri.val());
                &&& step_checks::<E>(v, l, k, pp.index_n_bits as nat)
                &&& circuit.step(step_start(v), z)
                &&& next_instance::<E>(v, l, k, U)
                &&& state_hash::<E>(v.pp, (v.i + 1) % p, v.z0, z, U, v.r_next) == state_hash::<E>(
                    pp_d,
                    (num_steps as int) % p,
                    z0,
                    zi,
                    self.r_U@,
                    ri,
                )
                &&& v.z0.len() == z0.len() && z.len() == zi.len() && same_layout(U, self.r_U@)
                    && absorbs(state_inputs(v.pp, (v.i + 1) % p, v.z0, z, U, v.r_next)) == absorbs(
                    state_inputs(pp_d, (num_steps as int) % p, z0, zi, self.r_U@, ri),
                ) ==> {
                    &&& v.pp == pp_d
                    &&& (v.i + 1) % p == (num_steps as int) % p
                    &&& v.z0 == z0
                    &&& z == zi
                    &&& U == self.r_U@
                    &&& v.r_next == ri
                }
            }),
    {
        let k = pp.lookup_fold_k as nat;
        let p = E::Scalar::modulus();
        let (v, l, U, z) = law_satisfied_is_step::<E, C>(
            pp.structure.S,
            circuit,
            k,
            pp.index_n_bits as nat,
            pp.ck,
            self.l_u,
            self.l_w,
        );
        let (pp_d, zi, ri) = (pp.pp_digest.val(), vals(self.zi@), self.ri.val());
        let i = (v.i + 1) % p;
        let n = (num_steps as int) % p;
        if v.z0.len() == z0.len() && z.len() == zi.len() && same_layout(U, self.r_U@) && absorbs(
            state_inputs(v.pp, i, v.z0, z, U, v.r_next),
        ) == absorbs(state_inputs(pp_d, n, z0, zi, self.r_U@, ri)) {
            law_state_inputs_determine(
                v.pp,
                i,
                v.z0,
                z,
                U,
                v.r_next,
                pp_d,
                n,
                z0,
                zi,
                self.r_U@,
                ri,
            );
        }
        (v, l, U, z)
    }

    /// Verifies that the chain leads from `z0` in `num_steps` steps to the state that it gives
    /// back.
    pub fn verify(&self, pp: &PublicParams<E, C>, num_steps: usize, z0: &[E::Scalar]) -> (r: Result<
        Vec<E::Scalar>,
        NovaError,
    >)
        requires
            pp.wf(),
        ensures
            r is Ok <==> self.rejection(*pp, num_steps as nat, vals(z0@)) is None,
            r is Ok ==> r->Ok_0@ == self.zi@,
            r is Ok ==> {
                &&& num_steps > 0
                &&& self.i == num_steps
                &&& vals(self.z0@) == vals(z0@)
                &&& self.r_U.X@.len() == 1
                &&& self.l_u.X@.len() == 1
                &&& self.l_u.X@[0].val() == state_hash::<E>(
                    pp.pp_digest.val(),
                    (num_steps as int) % E::Scalar::modulus(),
                    vals(z0@),
                    vals(self.zi@),
                    self.r_U@,
                    self.ri.val(),
                )
                &&& pp.structure.satisfied_by(pp.ck, self.r_U, self.r_W)
                &&& pp.structure.S.satisfied_by(pp.ck, self.l_u, self.l_w)
            },
            r is Err ==> chain_rejected_as(
                r->Err_0,
                self.rejection(*pp, num_steps as nat, vals(z0@))->Some_0,
            ),
    {
        if num_steps == 0 || self.i != num_steps || self.r_U.X.len() != 1 || self.l_u.X.len() != 1 {
            return Err(NovaError::InvalidNumSteps);
        }
        if !same_scalars(&self.z0, z0) {
            return Err(NovaError::InvalidInitialInputLength);
        }
        let step = E::Scalar::from_u64(num_steps as u64);
        let hash = hash_of_state(pp.digest(), step, &self.z0, &self.zi, &self.r_U, self.ri);
        if !self.l_u.X[0].same(hash) {
            return Err(NovaError::ProofVerifyError { reason: HASH.to_owned() });
        }
        match pp.structure.is_sat(&pp.ck, &self.r_U, &self.r_W) {
            Ok(_) => {},
            Err(e) => {
                return Err(e);
            },
        }
        match pp.structure.S.is_sat(&pp.ck, &self.l_u, &self.l_w) {
            Ok(_) => {},
            Err(e) => {
                return Err(e);
            },
        }
        Ok(copy_scalars(&self.zi))
    }

    /// A chain that is kept as it should be is accepted.
    pub proof fn law_chain_verifies(self, pp: PublicParams<E, C>)
        requires
            self.wf(pp),
            self.i > 0,
        ensures
            self.rejection(pp, self.i as nat, vals(self.z0@)) is None,
    {
    }
}

/// Why a chain is rejected.
pub enum ChainRejection {
    /// The number of steps is wrong.
    NumSteps,
    /// The first state is wrong.
    InitialState,
    /// The public value of the last step is not the hash of the state.
    Hash,
    /// An instance is not satisfied.
    Unsatisfied,
}

/// The public value of the last step is not the hash of the state.
pub const HASH: &'static str = "the public value of the last step is not the hash of the state";

/// The error is the one that the rejection stands for.
pub open spec fn chain_rejected_as(e: NovaError, why: ChainRejection) -> bool {
    match why {
        ChainRejection::NumSteps => e == NovaError::InvalidNumSteps,
        ChainRejection::InitialState => e == NovaError::InvalidInitialInputLength,
        ChainRejection::Hash => e is ProofVerifyError && e->ProofVerifyError_reason@ == HASH@,
        ChainRejection::Unsatisfied => e is UnSat,
    }
}

/// Each reason for which a chain is rejected has an error of its own.
pub proof fn law_rejections_told_apart(e: NovaError, a: ChainRejection, b: ChainRejection)
    requires
        chain_rejected_as(e, a),
        chain_rejected_as(e, b),
    ensures
        a == b,
        a is NumSteps <==> e == NovaError::InvalidNumSteps,
        a is InitialState <==> e == NovaError::InvalidInitialInputLength,
        a is Hash <==> e is ProofVerifyError,
        a is Unsatisfied <==> e is UnSat,
{
}

/// The two sides of a grid of `n` cells: as close to each other as powers of two can be, or a
/// single row.
pub open spec fn sides(n: nat, r: (usize, usize)) -> bool {
    &&& forall|e: nat| n == #[trigger] pow2(e) ==> r.0 == pow2((e + 1) / 2) && r.1 == pow2(e / 2)
    &&& (forall|e: nat| n != #[trigger] pow2(e)) ==> r.0 == n && r.1 == 1
}

/// The sides of a grid multiply to the number of its cells, and they are equal, or the first is
/// twice the second, or the second is one.
pub proof fn law_sides_multiply(n: nat, r: (usize, usize))
    requires
        sides(n, r),
    ensures
        r.0 * r.1 == n,
        r.0 == r.1 || r.0 == 2 * r.1 || r.1 == 1,
{
    if exists|e: nat| n == #[trigger] pow2(e) {
        let e = choose|e: nat| n == #[trigger] pow2(e);
        let (a, b) = ((e + 1) / 2, e / 2);
        lemma_pow2_adds(a as nat, b as nat);
        assert(a + b == e);
        if a != b {
            assert(a == b + 1);
            lemma_pow2_unfold(a as nat);
        }
    }
}

/// The two sides of a grid of `n` cells.
fn grid_sides(n: usize) -> (r: (usize, usize))
    requires
        n <= usize::MAX / 4,
    ensures
        sides(n as nat, r),
{
    let mut left: usize = 1;
    let mut right: usize = 1;
    let mut total: usize = 1;
    let ghost mut e: nat = 0;
    proof {
        lemma2_to64();
    }
    while total < n
        invariant
            n <= usize::MAX / 4,
            total == pow2(e),
            left == pow2((e + 1) / 2),
            right == pow2(e / 2),
            left <= total,
            right <= total,
            left == right <==> e % 2 == 0,
            n > 0 ==> total <= 2 * n,
            e > 0 ==> pow2((e - 1) as nat) < n,
        decreases 2 * n - total,
    {
        proof {
            lemma_pow2_pos(e);
            lemma_pow2_unfold(e + 1);
            if e % 2 == 0 {
                lemma_pow2_unfold(((e + 2) / 2) as nat);
                assert((e + 2) / 2 - 1 == e / 2);
                assert((e + 1) / 2 == e / 2);
            } else {
                lemma_pow2_unfold(((e + 1) / 2) as nat);
                assert((e + 1) / 2 - 1 == e / 2);
                assert((e + 2) / 2 == (e + 1) / 2);
            }
            lemma_pow2_pos(e / 2);
            lemma_pow2_grows(((e + 2) / 2) as nat, e + 1);
            lemma_pow2_grows(((e + 1) / 2) as nat, e + 1);
        }
        if left == right {
            left = 2 * left;
        } else {
            right = 2 * right;
        }
        total = 2 * total;
        proof {
            e = e + 1;
        }
    }
    proof {
        assert forall|d: nat| n == #[trigger] pow2(d) implies d == e by {
            if d < e {
                lemma_pow2_grows(d, (e - 1) as nat);
            } else if d > e {
                lemma_pow2_strictly_increases(e, d);
            }
        }
    }
    if total == n {
        (left, right)
    } else {
        assert forall|d: nat| n != #[trigger] pow2(d) by {}
        (n, 1)
    }
}

/// Powers of two grow with the exponent.
proof fn lemma_pow2_grows(a: nat, b: nat)
    requires
        a <= b,
    ensures
        pow2(a) <= pow2(b),
{
    if a < b {
        lemma_pow2_strictly_increases(a, b);
    }
}

/// The power of two with the given exponent; nothing where it is too large for a grid.
fn power_of_two(e: usize) -> (r: Option<usize>)
    ensures
        r is Some <==> pow2(e as nat) <= usize::MAX / 4,
        r is Some ==> r->Some_0 == pow2(e as nat),
{
    let mut x: usize = 1;
    let mut i: usize = 0;
    proof {
        lemma2_to64();
    }
    while i < e
        invariant
            i <= e,
            x == pow2(i as nat),
            x <= usize::MAX / 4,
        decreases e - i,
    {
        proof {
            lemma_pow2_unfold((i + 1) as nat);
            lemma_pow2_grows((i + 1) as nat, e as nat);
        }
        if x > usize::MAX / 8 {
            return None;
        }
        x = 2 * x;
        i = i + 1;
    }
    Some(x)
}

/// The vector holds `n` zeros.
pub open spec fn is_zeros<F: PrimeField>(v: Seq<F>, n: nat) -> bool {
    vals(v) == Seq::new(n, |i: int| 0int)
}

/// The vector holds zeros.
pub open spec fn all_zero<F: PrimeField>(v: Seq<F>) -> bool {
    is_zeros(v, v.len())
}

/// The running witness is zero everywhere, with `n` places for lookups and a table of `size`
/// places, each on a grid of its own.
pub open spec fn zero_running<E: Engine>(lw: LookupRunningWitness<E>, n: nat, size: nat) -> bool {
    &&& is_zeros(lw.witness@, n)
    &&& is_zeros(lw.inv_w@, n)
    &&& is_zeros(lw.table@, size)
    &&& is_zeros(lw.multiplicities@, size)
    &&& is_zeros(lw.inv_t@, size)
    &&& exists|w: (usize, usize)| #[trigger]
        sides(n, w) && is_zeros(lw.eq_w_left@, w.0 as nat) && is_zeros(lw.eq_w_right@, w.1 as nat)
    &&& exists|t: (usize, usize)| #[trigger]
        sides(size, t) && is_zeros(lw.eq_t_left@, t.0 as nat) && is_zeros(
            lw.eq_t_right@,
            t.1 as nat,
        )
}

/// A length that is committed to with a key of `m` generators and laid out on a grid.
pub open spec fn committable(n: nat, m: nat) -> bool {
    n <= m && n <= usize::MAX / 4
}

/// Why there are no lookups to begin a chain with, if there are none: the shape has too few
/// tables, or it is too large for the key.
pub open spec fn initial_refusal<E: Engine>(
    shape: Option<LookupShape<E>>,
    k: nat,
    m: nat,
) -> Option<NovaError> {
    if k == 0 {
        None
    } else if shape is None || shape->Some_0.tables@.len() < k || pow2(
        shape->Some_0.witness_ell_cached as nat,
    ) > usize::MAX / 4 {
        Some(NovaError::InvalidIndex)
    } else if pow2(shape->Some_0.witness_ell_cached as nat) > m {
        Some(NovaError::InvalidCommitmentKeyLength)
    } else if exists|j: int|
        0 <= j < k && !committable(#[trigger] shape->Some_0.tables@[j].size as nat, m) {
        Some(NovaError::InvalidCommitmentKeyLength)
    } else {
        None
    }
}

/// The lookups are those of a chain that has no steps yet, for `k` tables of the shape.
pub open spec fn initial_running<E: Engine>(
    lws: Seq<LookupRunningWitness<E>>,
    shape: Option<LookupShape<E>>,
    k: nat,
) -> bool {
    &&& lws.len() == k
    &&& forall|j: int|
        0 <= j < k ==> zero_running(
            #[trigger] lws[j],
            pow2(shape->Some_0.witness_ell_cached as nat),
            shape->Some_0.tables@[j].size as nat,
        )
}

/// There are lookups to begin a chain with exactly if there are no tables, or the shape has at least
/// as many, its room for lookups can be counted, and the key is long enough for it and for every
/// table.
pub proof fn law_begins_exactly<E: Engine>(shape: Option<LookupShape<E>>, k: nat, m: nat)
    ensures
        initial_refusal(shape, k, m) is None <==> k == 0 || {
            let s = shape->Some_0;
            let n = pow2(s.witness_ell_cached as nat);
            &&& shape is Some
            &&& s.tables@.len() >= k
            &&& n <= usize::MAX / 4
            &&& n <= m
            &&& forall|j: int|
                0 <= j < k ==> (#[trigger] s.tables@[j]).size <= m && s.tables@[j].size
                    <= usize::MAX / 4
        },
{
    let s = shape->Some_0;
    if forall|j: int|
        0 <= j < k ==> (#[trigger] s.tables@[j]).size <= m && s.tables@[j].size <= usize::MAX / 4 {
        assert forall|j: int| 0 <= j < k implies committable(
            #[trigger] s.tables@[j].size as nat,
            m,
        ) by {}
    } else {
        let j = choose|j: int|
            0 <= j < k && !((#[trigger] s.tables@[j]).size <= m && s.tables@[j].size <= usize::MAX
                / 4);
        assert(!committable(s.tables@[j].size as nat, m));
    }
}

/// The lookups of a chain that has no steps yet are zeros: in every table as many lookups as the
/// shape has room for, and an entry and a multiplicity for each place of the table.
pub proof fn law_begins_with_zeros<E: Engine>(
    lws: Seq<LookupRunningWitness<E>>,
    shape: Option<LookupShape<E>>,
    k: nat,
    j: int,
    i: int,
)
    requires
        initial_running(lws, shape, k),
        0 <= j < k,
    ensures
        ({
            let lw = lws[j];
            let n = pow2(shape->Some_0.witness_ell_cached as nat);
            let size = shape->Some_0.tables@[j].size;
            &&& lws.len() == k
            &&& lw.witness@.len() == n
            &&& lw.inv_w@.len() == n
            &&& lw.table@.len() == size
            &&& lw.multiplicities@.len() == size
            &&& lw.inv_t@.len() == size
            &&& 0 <= i < n ==> lw.witness@[i].val() == 0 && lw.inv_w@[i].val() == 0
            &&& 0 <= i < size ==> lw.table@[i].val() == 0 && lw.multiplicities@[i].val() == 0
                && lw.inv_t@[i].val() == 0
        }),
{
    let lw = lws[j];
    let n = pow2(shape->Some_0.witness_ell_cached as nat);
    let size = shape->Some_0.tables@[j].size as nat;
    assert(zero_running(lw, n, size));
    assert(vals(lw.witness@).len() == lw.witness@.len());
    assert(vals(lw.inv_w@).len() == lw.inv_w@.len());
    assert(vals(lw.table@).len() == lw.table@.len());
    assert(vals(lw.multiplicities@).len() == lw.multiplicities@.len());
    assert(vals(lw.inv_t@).len() == lw.inv_t@.len());
    if 0 <= i < n {
        assert(vals(lw.witness@)[i] == lw.witness@[i].val());
        assert(vals(lw.inv_w@)[i] == lw.inv_w@[i].val());
    }
    if 0 <= i < size {
        assert(vals(lw.table@)[i] == lw.table@[i].val());
        assert(vals(lw.multiplicities@)[i] == lw.multiplicities@[i].val());
        assert(vals(lw.inv_t@)[i] == lw.inv_t@[i].val());
    }
}

/// The lookups of a chain that has no steps yet, for `k` tables of the shape.
fn initial_lws<E: Engine>(shape: &Option<LookupShape<E>>, k: usize, m: usize) -> (r: Result<
    Vec<LookupRunningWitness<E>>,
    NovaError,
>)
    ensures
        match initial_refusal(*shape, k as nat, m as nat) {
            Some(e) => r == Err::<Vec<LookupRunningWitness<E>>, NovaError>(e),
            None => r is Ok && initial_running(r->Ok_0@, *shape, k as nat),
        },
{
    let mut r: Vec<LookupRunningWitness<E>> = Vec::new();
    if k == 0 {
        return Ok(r);
    }
    let x = match shape {
        Some(x) => x,
        None => {
            return Err(NovaError::InvalidIndex);
        },
    };
    if x.tables.len() < k {
        return Err(NovaError::InvalidIndex);
    }
    let n: usize = match power_of_two(x.witness_ell_cached) {
        Some(n) => n,
        None => {
            return Err(NovaError::InvalidIndex);
        },
    };
    if n > m {
        return Err(NovaError::InvalidCommitmentKeyLength);
    }
    let (w_left, w_right) = grid_sides(n);
    let mut j: usize = 0;
    while j < k
        invariant
            j <= k,
            k > 0,
            *shape == Some(*x),
            k <= x.tables@.len(),
            n == pow2(x.witness_ell_cached as nat),
            n <= usize::MAX / 4,
            n <= m,
            sides(n as nat, (w_left, w_right)),
            forall|i: int|
                0 <= i < j ==> committable(#[trigger] x.tables@[i].size as nat, m as nat),
            initial_running(r@, *shape, j as nat),
        decreases k - j,
    {
        let size: usize = x.tables[j].size;
        if size > m || size > usize::MAX / 4 {
            assert(!committable(shape->Some_0.tables@[j as int].size as nat, m as nat));
            return Err(NovaError::InvalidCommitmentKeyLength);
        }
        let (t_left, t_right) = grid_sides(size);
        let lw = LookupRunningWitness {
            witness: zeros(n),
            inv_w: zeros(n),
            table: zeros(size),
            multiplicities: zeros(size),
            inv_t: zeros(size),
            eq_w_left: zeros(w_left),
            eq_w_right: zeros(w_right),
            eq_t_left: zeros(t_left),
            eq_t_right: zeros(t_right),
        };
        assert(zero_running(lw, n as nat, size as nat)) by {
            assert(sides(size as nat, (t_left, t_right)));
        }
        r.push(lw);
        j = j + 1;
    }
    Ok(r)
}

/// The instance and witness of one step, and the state after it.
pub struct LaidOut<E: Engine> {
    pub u: R1CSInstance<E>,
    pub w: R1CSWitness<E>,
    pub z: Vec<E::Scalar>,
}

/// The augmented circuit of a step.
pub open spec fn augmented<'a, E: Engine, C: StepCircuit<E::Scalar>>(
    pp: PublicParams<E, C>,
    circuit: &'a C,
    inputs: NeutronAugmentedCircuitInputs<E>,
    registry: &'a [E::Scalar],
) -> NeutronAugmentedCircuit<'a, E, C> {
    NeutronAugmentedCircuit {
        inputs: Some(inputs),
        step_circuit: circuit,
        shape_registry: registry,
        lookup_fold_k: pp.lookup_fold_k,
        index_n_bits: pp.index_n_bits,
    }
}

/// The step is laid out: it is satisfied, leads to the state `z` and makes the hash of what it
/// hands on public.
pub open spec fn laid_out<E: Engine, C: StepCircuit<E::Scalar>>(
    o: LaidOut<E>,
    pp: PublicParams<E, C>,
    a: NeutronAugmentedCircuit<E, C>,
) -> bool {
    let v = a.step_val();
    let l = a.lookup_val();
    &&& pp.structure.S.satisfied_by(pp.ck, o.u, o.w)
    &&& o.u.X@.len() == 1
    &&& o.w.W@.len() == pp.structure.S.num_vars
    &&& o.z@.len() == pp.F_arity
    &&& a.k() > 0 ==> pp.F_arity > 0
    &&& a.step_circuit.step(step_start(v), vals(o.z@))
    &&& vals(o.z@) == a.step_circuit.output(step_start(v))
    &&& step_checks::<E>(v, l, a.k(), a.index_n_bits as nat)
    &&& exists|U: FoldedVal|
        {
            &&& #[trigger] next_instance::<E>(v, l, a.k(), U)
            &&& o.u.X@[0].val() == next_hash::<E>(v, vals(o.z@), U)
        }
}

/// A system that the augmented circuit was added to, with the values that its inputs stand for:
/// the numbers `out` are the state after the step, and the hash of what is handed on is public.
pub open spec fn added<E: Engine, C: StepCircuit<E::Scalar>>(
    a: NeutronAugmentedCircuit<E, C>,
    cs: ConstraintSystem<E::Scalar>,
    out: Seq<AllocatedNum<E::Scalar>>,
) -> bool {
    let v = a.step_val();
    let l = a.lookup_val();
    let z = nums_at(out, Valuation::Recorded);
    &&& cs.wf()
    &&& cs.records()
    &&& nums_valid(cs, out)
    &&& (cs.layout(), nums_at(out, Valuation::Names)) == a.laid_out(empty_layout())
    &&& out.len() == a.step_circuit.width()
    &&& cs.satisfied() <==> step_checks::<E>(v, l, a.k(), a.index_n_bits as nat)
        && a.step_circuit.step(step_start(v), z)
    &&& z == a.step_circuit.output(step_start(v))
    &&& exists|U: FoldedVal|
        {
            &&& #[trigger] next_instance::<E>(v, l, a.k(), U)
            &&& cs.io(Valuation::Recorded) == seq![next_hash::<E>(v, z, U)]
        }
}

/// What becomes of a step once its circuit was added to a system: the recorded values must meet
/// the constraints of the system, be as many as the parameters have variables, and meet the
/// constraints of the parameters. They are then the instance and the witness.
pub open spec fn closed_as<E: Engine, C: StepCircuit<E::Scalar>>(
    pp: PublicParams<E, C>,
    cs: ConstraintSystem<E::Scalar>,
    out: Seq<AllocatedNum<E::Scalar>>,
    blind: E::Scalar,
    r: Result<LaidOut<E>, NovaError>,
) -> bool {
    let W = cs.private_values();
    let X = cs.io(Valuation::Recorded);
    if !cs.satisfied() {
        r is Err && r->Err_0 is UnSat && r->Err_0->UnSat_reason@ == STEP@
    } else if W.len() != pp.structure.S.num_vars {
        r == Err::<LaidOut<E>, NovaError>(NovaError::InvalidIndex)
    } else if !pp.structure.S.holds(full_vector(W, 1, X)) {
        r is Err && r->Err_0 is UnSat
    } else {
        &&& r is Ok
        &&& vals(r->Ok_0.w.W@) == W
        &&& r->Ok_0.w.r_W == blind
        &&& vals(r->Ok_0.u.X@) == X
        &&& r->Ok_0.u.comm_W.log() == pp.ck.commitment(W, blind.val())
        &&& vals(r->Ok_0.z@) == nums_at(out, Valuation::Recorded)
    }
}

/// What laying a step out leads to. The equality polynomial must not vanish where a fold is
/// reached, the augmented circuit must not be refused, and the step circuit must yield a state;
/// the rest is decided on the system that they were added to.
pub open spec fn layout<E: Engine, C: StepCircuit<E::Scalar>>(
    pp: PublicParams<E, C>,
    a: NeutronAugmentedCircuit<E, C>,
    blind: E::Scalar,
    r: Result<LaidOut<E>, NovaError>,
) -> bool {
    let n = a.step_circuit.produces(a.recorded_start(true));
    if a.early_refusal(true) is None && !a.fold_defined() {
        r == Err::<LaidOut<E>, NovaError>(NovaError::InvalidInversion)
    } else if a.refusal(true) is Some {
        r is Err && r->Err_0 is Synthesis && refused_as(
            Err::<(), SynthesisError>(r->Err_0->Synthesis_0),
            a.refusal(true)->Some_0,
        )
    } else if n != Some(a.step_circuit.width()) {
        r is Err && r->Err_0 is Synthesis && (n is Some ==> finished_short(
            Err::<(), SynthesisError>(r->Err_0->Synthesis_0),
        ))
    } else {
        exists|cs: ConstraintSystem<E::Scalar>, out: Seq<AllocatedNum<E::Scalar>>| #[trigger]
            added(a, cs, out) && closed_as(pp, cs, out, blind, r)
    }
}

/// What laying out the step with the given inputs leads to.
pub open spec fn layout_of<E: Engine, C: StepCircuit<E::Scalar>>(
    pp: PublicParams<E, C>,
    circuit: &C,
    inputs: NeutronAugmentedCircuitInputs<E>,
    blind: E::Scalar,
    r: Result<LaidOut<E>, NovaError>,
) -> bool {
    exists|registry: &[E::Scalar]|
        registry@ == pp.shape_registry@ && layout(
            pp,
            #[trigger] augmented(pp, circuit, inputs, registry),
            blind,
            r,
        )
}

/// Where the matrices are those of the circuit and the inputs have the dimensions of no inputs, a
/// step is laid out if and only if its demands are met.
pub proof fn law_step_closes<E: Engine, C: StepCircuit<E::Scalar>>(
    pp: PublicParams<E, C>,
    a: NeutronAugmentedCircuit<E, C>,
    cs: ConstraintSystem<E::Scalar>,
    out: Seq<AllocatedNum<E::Scalar>>,
    blind: E::Scalar,
    r: Result<LaidOut<E>, NovaError>,
)
    requires
        pp.lays_out(*a.step_circuit),
        a.dims() == pp.dims(*a.step_circuit),
        added(a, cs, out),
        closed_as(pp, cs, out, blind, r),
    ensures
        r is Ok <==> step_checks::<E>(
            a.step_val(),
            a.lookup_val(),
            a.k(),
            a.index_n_bits as nat,
        ) && a.step_circuit.step(
            step_start(a.step_val()),
            a.step_circuit.output(step_start(a.step_val())),
        ),
        r is Err ==> r->Err_0 is UnSat && r->Err_0->UnSat_reason@ == STEP@,
{
    if cs.satisfied() {
        pp.law_recorded_step_meets_shape(a, cs);
    }
}

/// The recorded values of numbers.
fn recorded<F: PrimeField>(cs: &ConstraintSystem<F>, v: &Vec<AllocatedNum<F>>) -> (r: Vec<F>)
    requires
        cs.records(),
        nums_valid(*cs, v@),
    ensures
        vals(r@) == nums_at(v@, Valuation::Recorded),
        r@.len() == v@.len(),
{
    let n: usize = v.len();
    let mut r: Vec<F> = Vec::new();
    let mut i: usize = 0;
    while i < n
        invariant
            i <= n,
            n == v@.len(),
            cs.records(),
            nums_valid(*cs, v@),
            r@.len() == i,
            forall|j: int| 0 <= j < i ==> (#[trigger] r@[j]).val() == v@[j].at(Valuation::Recorded),
        decreases n - i,
    {
        assert(cs.valid(v@[i as int]));
        r.push(v[i].value_or_zero(cs));
        i = i + 1;
    }
    proof {
        assert(vals(r@) =~= nums_at(v@, Valuation::Recorded));
    }
    r
}

/// The constraints of the step are not met.
pub const STEP: &'static str = "the constraints of the step are not met";

/// Closes a step whose circuit was added to a system.
fn close_step<E: Engine, C: StepCircuit<E::Scalar>>(
    pp: &PublicParams<E, C>,
    cs: &ConstraintSystem<E::Scalar>,
    out: &Vec<AllocatedNum<E::Scalar>>,
    blind: E::Scalar,
) -> (r: Result<LaidOut<E>, NovaError>)
    requires
        pp.wf(),
        cs.wf(),
        cs.records(),
        cs.io(Valuation::Recorded).len() == 1,
        nums_valid(*cs, out@),
    ensures
        closed_as(*pp, *cs, out@, blind, r),
        r is Ok ==> pp.structure.S.satisfied_by(pp.ck, r->Ok_0.u, r->Ok_0.w),
{
    if !cs.is_satisfied() {
        return Err(NovaError::UnSat { reason: STEP.to_owned() });
    }
    let z = recorded(cs, out);
    let (W, X) = cs.recorded_values();
    proof {
        assert(vals(W@).len() == W@.len());
        assert(vals(X@).len() == X@.len());
    }
    if W.len() != pp.structure.S.num_vars {
        return Err(NovaError::InvalidIndex);
    }
    let u = R1CSInstance { comm_W: pp.ck.commit(&W, &blind), X };
    let w = R1CSWitness { W, r_W: blind };
    match pp.structure.S.is_sat(&pp.ck, &u, &w) {
        Ok(_) => {},
        Err(e) => {
            return Err(e);
        },
    }
    Ok(LaidOut { u, w, z })
}

/// Lays a step out with the blinding `blind` of its witness.
fn lay_out<E: Engine, C: StepCircuit<E::Scalar>>(
    pp: &PublicParams<E, C>,
    circuit: &C,
    inputs: NeutronAugmentedCircuitInputs<E>,
    blind: E::Scalar,
) -> (r: Result<LaidOut<E>, NovaError>)
    requires
        pp.wf(),
        circuit.width() == pp.F_arity,
        inputs.fits(circuit.width()),
    ensures
        layout_of(*pp, circuit, inputs, blind, r),
        r is Ok ==> r->Ok_0.w.r_W == blind,
        r is Ok ==> exists|registry: &[E::Scalar]|
            registry@ == pp.shape_registry@ && laid_out(
                r->Ok_0,
                *pp,
                #[trigger] augmented(*pp, circuit, inputs, registry),
            ),
{
    let registry = pp.shape_registry.as_slice();
    let a = NeutronAugmentedCircuit::<E, C>::new(Some(inputs), circuit).with_lookup_fold(
        pp.lookup_fold_k,
        registry,
        pp.index_n_bits,
    );
    let ghost a0 = a;
    assert(a0 == augmented(*pp, circuit, inputs, registry));
    if a.fold_vanishes() {
        return Err(NovaError::InvalidInversion);
    }
    let mut cs = ConstraintSystem::<E::Scalar>::new();
    let ghost before = cs;
    let outputs = match a.synthesize(&mut cs) {
        Ok(z) => z,
        Err(e) => {
            return Err(NovaError::Synthesis(e));
        },
    };
    proof {
        let v = a0.step_val();
        let l = a0.lookup_val();
        let e = Valuation::Recorded;
        let U = choose|U: FoldedVal|
            {
                &&& #[trigger] next_instance::<E>(v, l, a0.k(), U)
                &&& cs.io(e) == before.io(e).push(next_hash::<E>(v, nums_at(outputs@, e), U))
            };
        assert(next_instance::<E>(v, l, a0.k(), U));
        assert(before.io(e).len() == 0);
        assert(cs.io(e) =~= seq![next_hash::<E>(v, nums_at(outputs@, e), U)]);
        assert(added(a0, cs, outputs@));
    }
    let r = close_step(pp, &cs, &outputs, blind);
    proof {
        assert(layout(*pp, a0, blind, r));
        if r is Ok {
            let o = r->Ok_0;
            assert(vals(o.u.X@).len() == o.u.X@.len());
            assert(o.u.X@[0].val() == vals(o.u.X@)[0]);
            assert(vals(o.z@).len() == o.z@.len());
            assert(laid_out(o, *pp, a0));
        }
    }
    r
}

/// The neutral instance is satisfied by zeros.
proof fn lemma_neutral_satisfied<E: Engine>(
    ck: CommitmentKey<E>,
    structure: Structure<E>,
    U: FoldedInstance<E>,
    W: FoldedWitness<E>,
)
    requires
        structure.wf(),
        key_fits(ck, structure),
        structure.S.num_io == 1,
        U.X@.len() == 1,
        U.T.val() == 0,
        U.comm_W.log() == 0,
        U.comm_E.log() == 0,
        vals(W.W@) == Seq::new(structure.S.num_vars as nat, |i: int| 0int),
        vals(W.E@) == Seq::new((structure.left + structure.right) as nat, |i: int| 0int),
        W.r_W.val() == 0,
        W.r_E.val() == 0,
    ensures
        structure.satisfied_by(ck, U, W),
{
    let p = E::Scalar::modulus();
    E::Scalar::lemma_modulus();
    let e = vals(W.E@);
    assert(vals(W.W@).len() == W.W@.len());
    assert(e.len() == W.E@.len());
    lemma_msm_zeros(structure.S.num_vars as nat, logs::<E>(ck.ck@));
    lemma_msm_zeros((structure.left + structure.right) as nat, logs::<E>(ck.ck@));
    assert(0 * ck.h.log() == 0);
    lemma_reduced(p, 0);
    let l = structure.left as int;
    let z = full_vector(vals(W.W@), U.u.val(), vals(U.X@));
    let g = grid(structure.S, e.take(l), e.skip(l), z);
    assert(weightless(g)) by {
        assert forall|j: int| 0 <= j < g.eq_left.len() implies #[trigger] g.eq_left[j] == 0 by {
            assert(e[j] == 0);
        }
    }
    lemma_rows_vanish(p, g, 0, g.eq_right.len());
}

/// The lookups that a chain begins with are zero and fit the key.
proof fn lemma_initial_fits<E: Engine>(
    lws: Seq<LookupRunningWitness<E>>,
    shape: Option<LookupShape<E>>,
    k: nat,
    m: nat,
)
    requires
        initial_refusal(shape, k, m) is None,
        initial_running(lws, shape, k),
    ensures
        forall|j: int|
            0 <= j < lws.len() ==> {
                &&& all_zero((#[trigger] lws[j]).witness@)
                &&& all_zero(lws[j].multiplicities@)
                &&& lws[j].witness@.len() <= m
                &&& lws[j].multiplicities@.len() <= m
                &&& lws[j].table@.len() == lws[j].multiplicities@.len()
            },
{
    assert forall|j: int| 0 <= j < lws.len() implies {
        &&& all_zero((#[trigger] lws[j]).witness@)
        &&& all_zero(lws[j].multiplicities@)
        &&& lws[j].witness@.len() <= m
        &&& lws[j].multiplicities@.len() <= m
        &&& lws[j].table@.len() == lws[j].multiplicities@.len()
    } by {
        let lw = lws[j];
        assert(vals(lw.witness@).len() == lw.witness@.len());
        assert(vals(lw.multiplicities@).len() == lw.multiplicities@.len());
        assert(vals(lw.table@).len() == lw.table@.len());
        assert(committable(shape->Some_0.tables@[j].size as nat, m));
    }
}

/// Lookups that are zero are committed to by the neutral element.
proof fn lemma_zero_committed<E: Engine>(
    ck: CommitmentKey<E>,
    lws: Seq<LookupRunningWitness<E>>,
    comm_L: Seq<E::GE>,
    comm_ts: Seq<E::GE>,
)
    requires
        comm_L.len() == lws.len(),
        comm_ts.len() == lws.len(),
        forall|j: int|
            0 <= j < lws.len() ==> {
                &&& all_zero((#[trigger] lws[j]).witness@)
                &&& all_zero(lws[j].multiplicities@)
                &&& lws[j].witness@.len() <= ck.ck@.len()
                &&& lws[j].multiplicities@.len() <= ck.ck@.len()
                &&& lws[j].table@.len() == lws[j].multiplicities@.len()
            },
        forall|j: int| 0 <= j < lws.len() ==> (#[trigger] comm_L[j]).log() == 0,
        forall|j: int| 0 <= j < lws.len() ==> (#[trigger] comm_ts[j]).log() == 0,
    ensures
        committed(ck, lws, comm_L, comm_ts),
{
    let p = E::Scalar::modulus();
    E::Scalar::lemma_modulus();
    assert(0 * ck.h.log() == 0);
    lemma_reduced(p, 0);
    assert forall|j: int| 0 <= j < lws.len() implies {
        &&& (#[trigger] lws[j]).witness@.len() <= ck.ck@.len()
        &&& lws[j].multiplicities@.len() <= ck.ck@.len()
        &&& lws[j].table@.len() == lws[j].multiplicities@.len()
        &&& comm_L[j].log() == ck.commitment(vals(lws[j].witness@), 0)
        &&& comm_ts[j].log() == ck.commitment(vals(lws[j].multiplicities@), 0)
    } by {
        lemma_msm_zeros(lws[j].witness@.len(), logs::<E>(ck.ck@));
        lemma_msm_zeros(lws[j].multiplicities@.len(), logs::<E>(ck.ck@));
    }
}

/// The inputs of the first step: nothing is folded before it.
pub open spec fn first_inputs<E: Engine, C: StepCircuit<E::Scalar>>(
    inputs: NeutronAugmentedCircuitInputs<E>,
    pp: PublicParams<E, C>,
    z0: Seq<E::Scalar>,
    ri: E::Scalar,
) -> bool {
    &&& inputs.pp_digest.val() == pp.digest_val()
    &&& inputs.i.val() == 0
    &&& inputs.z0@ == z0
    &&& inputs.zi is None
    &&& inputs.U is None
    &&& inputs.ri is None
    &&& inputs.r_next == ri
    &&& inputs.u is None
    &&& inputs.nifs is None
    &&& inputs.comm_W_fold is None
    &&& inputs.comm_E_fold is None
    &&& inputs.public_bundles_multi_table is None
    &&& inputs.corrupt_t_lookup_at_index is None
}

impl<E: Engine, C: StepCircuit<E::Scalar>> RecursiveSNARK<E, C> {
    /// The chain holds the first step as it was laid out, and the lookups of a chain without
    /// steps.
    pub open spec fn holds_first(self, pp: PublicParams<E, C>, o: LaidOut<E>) -> bool {
        &&& self.l_u == o.u
        &&& self.l_w == o.w
        &&& self.zi == o.z
        &&& initial_running(self.running_lws@, pp.lookup_shape, pp.lookup_fold_k as nat)
    }

    /// What beginning a chain at `z0` leads to: the state must have the width of the parameters,
    /// there must be lookups to begin with, and the first step must be laid out.
    pub open spec fn begun(
        pp: PublicParams<E, C>,
        circuit: &C,
        z0: Seq<E::Scalar>,
        ri: E::Scalar,
        blind: E::Scalar,
        r: Result<Self, NovaError>,
    ) -> bool {
        let why = initial_refusal(pp.lookup_shape, pp.lookup_fold_k as nat, pp.ck.ck@.len());
        if z0.len() != pp.F_arity {
            r == Err::<Self, NovaError>(NovaError::InvalidInitialInputLength)
        } else if why is Some {
            r == Err::<Self, NovaError>(why->Some_0)
        } else {
            exists|inputs: NeutronAugmentedCircuitInputs<E>, o: Result<LaidOut<E>, NovaError>|
                first_inputs(inputs, pp, z0, ri) && #[trigger] layout_of(
                    pp,
                    circuit,
                    inputs,
                    blind,
                    o,
                ) && match o {
                    Err(e) => r == Err::<Self, NovaError>(e),
                    Ok(o) => r is Ok && r->Ok_0.holds_first(pp, o),
                }
        }
    }

    /// Where the matrices are those of the circuit, and a state of the right width, lookups to
    /// begin with, a registry and a state after the step are there, a chain is begun, unless the
    /// equality polynomial vanishes at the challenges of the first step or its constraints are
    /// not met.
    pub proof fn law_chain_begins(
        pp: PublicParams<E, C>,
        circuit: &C,
        z0: Seq<E::Scalar>,
        ri: E::Scalar,
        blind: E::Scalar,
        r: Result<Self, NovaError>,
    )
        requires
            pp.lays_out(*circuit),
            circuit.width() == pp.F_arity,
            z0.len() == pp.F_arity,
            initial_refusal(pp.lookup_shape, pp.lookup_fold_k as nat, pp.ck.ck@.len()) is None,
            pp.lookup_fold_k > 0 ==> pp.shape_registry@.len() > 0 && pp.index_n_bits > 0
                && pp.F_arity > 0,
            circuit.produces(Some(vals(z0))) == Some(circuit.width()),
            Self::begun(pp, circuit, z0, ri, blind, r),
        ensures
            r is Ok || r == Err::<Self, NovaError>(NovaError::InvalidInversion) || (r is Err
                && r->Err_0 is UnSat && r->Err_0->UnSat_reason@ == STEP@),
    {
        let (inputs, o) = choose|
            inputs: NeutronAugmentedCircuitInputs<E>,
            o: Result<LaidOut<E>, NovaError>,
        |
            first_inputs(inputs, pp, z0, ri) && #[trigger] layout_of(pp, circuit, inputs, blind, o)
                && match o {
                Err(e) => r == Err::<Self, NovaError>(e),
                Ok(o) => r is Ok && r->Ok_0.holds_first(pp, o),
            };
        let registry = choose|registry: &[E::Scalar]|
            registry@ == pp.shape_registry@ && layout(
                pp,
                #[trigger] augmented(pp, circuit, inputs, registry),
                blind,
                o,
            );
        let a = augmented(pp, circuit, inputs, registry);
        assert(a.dims() =~= pp.dims(*circuit));
        assert(inputs.z0@.take(z0.len() as int) =~= z0);
        assert(a.refusal(true) is None);
        if a.fold_defined() {
            let (cs, out) = choose|
                cs: ConstraintSystem<E::Scalar>,
                out: Seq<AllocatedNum<E::Scalar>>,
            | #[trigger]
                added(a, cs, out) && closed_as(pp, cs, out, blind, o);
            law_step_closes(pp, a, cs, out, blind, o);
        }
    }

    /// Begins a chain at `z0` with given blindings: lays out the first step.
    pub fn new_with(
        pp: &PublicParams<E, C>,
        circuit: &C,
        z0: &[E::Scalar],
        ri: E::Scalar,
        blind: E::Scalar,
    ) -> (r: Result<Self, NovaError>)
        requires
            pp.wf(),
            circuit.width() == pp.F_arity,
        ensures
            Self::begun(*pp, circuit, z0@, ri, blind, r),
            r is Ok ==> {
                let s = r->Ok_0;
                &&& s.wf(*pp)
                &&& s.lookups_committed(*pp)
                &&& s.i == 0
                &&& s.z0@ == z0@
                &&& s.ri == ri
                &&& s.l_w.r_W == blind
                &&& s.r_U@ == default_folded(1, some_tables(pp.lookup_fold_k as nat))
                &&& circuit.step(vals(z0@), vals(s.zi@))
                &&& vals(s.zi@) == circuit.output(vals(z0@))
                &&& pp.lookup_fold_k > 0 ==> pp.registered_at(0)
            },
    {
        if z0.len() != pp.F_arity {
            return Err(NovaError::InvalidInitialInputLength);
        }
        let k: usize = pp.lookup_fold_k;
        let running_lws = match initial_lws(&pp.lookup_shape, k, pp.ck.ck.len()) {
            Ok(x) => x,
            Err(e) => {
                return Err(e);
            },
        };
        let inputs = NeutronAugmentedCircuitInputs::<E>::new(
            pp.digest(),
            E::Scalar::zero(),
            copy_scalars(z0),
            None,
            None,
            None,
            ri,
            None,
            None,
            None,
            None,
        );
        let ghost inputs0 = inputs;
        assert(first_inputs(inputs0, *pp, z0@, ri));
        let o = match lay_out(pp, circuit, inputs, blind) {
            Ok(o) => o,
            Err(e) => {
                return Err(e);
            },
        };
        let r_U = if k > 0 {
            FoldedInstance::default_with_lookup_k(1, k)
        } else {
            FoldedInstance::default(1)
        };
        let structure = &pp.structure;
        let r_W = FoldedWitness {
            W: zeros(structure.S.num_vars),
            r_W: E::Scalar::zero(),
            E: zeros(structure.left + structure.right),
            r_E: E::Scalar::zero(),
        };
        proof {
            let p = E::Scalar::modulus();
            E::Scalar::lemma_modulus();
            lemma_reduced(p, 1);
            let registry = choose|registry: &[E::Scalar]|
                registry@ == pp.shape_registry@ && laid_out(
                    o,
                    *pp,
                    #[trigger] augmented(*pp, circuit, inputs0, registry),
                );
            let a = augmented(*pp, circuit, inputs0, registry);
            let v = a.step_val();
            let U = choose|U: FoldedVal|
                {
                    &&& #[trigger] next_instance::<E>(v, a.lookup_val(), a.k(), U)
                    &&& o.u.X@[0].val() == next_hash::<E>(v, vals(o.z@), U)
                };
            assert(inputs0.z0@.take(z0@.len() as int) =~= z0@);
            assert(r_U@.X.len() == 1);
            assert(r_U.X@.len() == vals(r_U.X@).len());
            assert(r_U@ == default_folded(1, some_tables(k as nat)));
            assert(U == r_U@);
            if k > 0 {
                assert(v.zi.last() == 0);
                assert(a.lookup_val().registry == vals(pp.shape_registry@));
            }
            lemma_neutral_satisfied(pp.ck, *structure, r_U, r_W);
            if k > 0 {
                let comm_L = r_U.comm_L->Some_0@;
                let comm_ts = r_U.comm_ts->Some_0@;
                assert(r_U@.comm_L->Some_0.len() == k);
                assert(r_U@.comm_ts->Some_0.len() == k);
                assert(r_U@.T_lookup->Some_0.len() == k);
                lemma_initial_fits(running_lws@, pp.lookup_shape, k as nat, pp.ck.ck@.len());
                lemma_zero_committed(pp.ck, running_lws@, comm_L, comm_ts);
            }
        }
        let s = RecursiveSNARK {
            z0: copy_scalars(z0),
            r_W,
            r_U,
            ri,
            l_w: o.w,
            l_u: o.u,
            i: 0,
            zi: o.z,
            running_lws,
            _p: std::marker::PhantomData,
        };
        proof {
            assert(layout_of(*pp, circuit, inputs0, blind, Ok::<LaidOut<E>, NovaError>(o)));
            assert(s.holds_first(*pp, o));
        }
        Ok(s)
    }
}

/// The inputs of a step carry a fold: the running instance, the instance to fold in, the message
/// and the commitments that are folded to.
pub open spec fn carries_fold<E: Engine>(
    inputs: NeutronAugmentedCircuitInputs<E>,
    pp: int,
    U1: FoldedInstance<E>,
    U2: R1CSInstance<E>,
    nifs: NIFS<E>,
    public: Seq<LookupPayloadPublicMultiTable<E>>,
    U: FoldedInstance<E>,
) -> bool {
    let k = public.len();
    &&& inputs.pp_digest.val() == pp
    &&& inputs.U is Some && inputs.U->Some_0@ == U1@
    &&& inputs.u is Some && inputs.u->Some_0.comm_W.log() == U2.comm_W.log()
        && inputs.u->Some_0.X@ == U2.X@
    &&& inputs.nifs == Some(nifs)
    &&& inputs.comm_W_fold == Some(U.comm_W)
    &&& inputs.comm_E_fold == Some(U.comm_E)
    &&& inputs.public_bundles_multi_table is Some
        && inputs.public_bundles_multi_table->Some_0@ == public
    &&& inputs.corrupt_t_lookup_at_index is None
    &&& nifs.poly@.len() == 6
    &&& poly_vals(nifs.poly_lookup).len() == k
    &&& forall|j: int| 0 <= j < k ==> (#[trigger] poly_vals(nifs.poly_lookup)[j]).len() == 6
    &&& opt_len(nifs.comm_inv_w) == k
    &&& opt_len(nifs.comm_inv_t) == k
    &&& k > 0 ==> {
        &&& U1.T_lookup is Some
        &&& U1.comm_L is Some
        &&& U1.comm_ts is Some
        &&& opt_len(nifs.comm_L_fold_per_table) == k
        &&& opt_len(nifs.comm_ts_fold_per_table) == k
    }
}

/// A step folds inside of its circuit what the fold outside of it was computed on.
pub proof fn law_circuit_reads_fold<E: Engine, C: StepCircuit<E::Scalar>>(
    a: NeutronAugmentedCircuit<E, C>,
    inputs: NeutronAugmentedCircuitInputs<E>,
    pp: int,
    U1: FoldedInstance<E>,
    U2: R1CSInstance<E>,
    nifs: NIFS<E>,
    public: Seq<LookupPayloadPublicMultiTable<E>>,
    U: FoldedInstance<E>,
)
    requires
        a.inputs == Some(inputs),
        a.k() == public.len(),
        U2.X@.len() == 1,
        carries_fold(inputs, pp, U1, U2, nifs, public, U),
    ensures
        step_input(a.step_val(), a.lookup_val(), a.k()) == fold_input(pp, U1, U2, nifs, public),
        a.step_val().comm_W_fold == U@.comm_W,
        a.step_val().comm_E_fold == U@.comm_E,
        a.k() > 0 ==> a.lookup_val().comm_L_fold == coords::<E>(
            nifs.comm_L_fold_per_table->Some_0@,
        ),
        a.k() > 0 ==> a.lookup_val().comm_ts_fold == coords::<E>(
            nifs.comm_ts_fold_per_table->Some_0@,
        ),
{
    let v = a.step_val();
    let l = a.lookup_val();
    let k = a.k();
    let x = fold_input(pp, U1, U2, nifs, public);
    let y = step_input(v, l, k);
    assert(a.message() == Some(&nifs));
    assert(a.taken_up() == U1@);
    assert(v.U == U1@);
    assert(padded_poly(nifs.poly@, 6) =~= nifs.poly@);
    assert(y.poly == x.poly);
    if k > 0 {
        assert(y.tables =~= x.tables) by {
            assert forall|j: int| 0 <= j < k implies y.tables[j] == x.tables[j] by {
                assert(a.payload(j) == Some(&public[j]));
            }
        }
        assert(y.polys =~= x.polys) by {
            assert forall|j: int| 0 <= j < k implies y.polys[j] == x.polys[j] by {
                let c = poly_vals(nifs.poly_lookup)[j];
                assert(c.len() == 6);
                assert(padded_poly(c, 6) =~= c);
            }
        }
        assert(y.inv_w =~= x.inv_w);
        assert(y.inv_t =~= x.inv_t);
        assert(l.comm_L_fold =~= coords::<E>(nifs.comm_L_fold_per_table->Some_0@));
        assert(l.comm_ts_fold =~= coords::<E>(nifs.comm_ts_fold_per_table->Some_0@));
    } else {
        assert(y.tables =~= x.tables);
        assert(y.polys =~= x.polys);
        assert(y.inv_w =~= x.inv_w);
        assert(y.inv_t =~= x.inv_t);
    }
}

/// A step past the first hands on the folded instance that is computed outside of its circuit.
pub proof fn law_circuit_folds_alike<E: Engine, C: StepCircuit<E::Scalar>>(
    a: NeutronAugmentedCircuit<E, C>,
    inputs: NeutronAugmentedCircuitInputs<E>,
    pp: int,
    U1: FoldedInstance<E>,
    U2: R1CSInstance<E>,
    nifs: NIFS<E>,
    public: Seq<LookupPayloadPublicMultiTable<E>>,
    U: FoldedInstance<E>,
    U_new: FoldedVal,
)
    requires
        a.inputs == Some(inputs),
        a.k() == public.len(),
        U2.X@.len() == 1,
        carries_fold(inputs, pp, U1, U2, nifs, public, U),
        folded_natively(pp, U1, U2, nifs, public, U),
        a.step_val().i != 0,
        next_instance::<E>(a.step_val(), a.lookup_val(), a.k(), U_new),
    ensures
        U_new == U@,
{
    law_circuit_reads_fold(a, inputs, pp, U1, U2, nifs, public, U);
    let v = a.step_val();
    let l = a.lookup_val();
    let k = a.k();
    let x = fold_input(pp, U1, U2, nifs, public);
    assert(folded_into::<E>(v, l, k, U_new));
    let (out, t_outs) = choose|out: FoldedVal, t_outs: Seq<int>| #[trigger]
        folds_to::<E>(step_input(v, l, k), v.comm_W_fold, v.comm_E_fold, out, t_outs) && U_new
            == renewed(out, t_outs, l, k);
    law_fold_unique::<E>(
        x,
        U@.comm_W,
        U@.comm_E,
        out,
        t_outs,
        before_renewal(U@, U1@),
        carried_claims(U@, k),
    );
    if k > 0 {
        assert(U@.comm_L == Some(l.comm_L_fold));
        assert(U@.comm_ts == Some(l.comm_ts_fold));
        assert(U@.T_lookup == Some(t_outs));
    } else {
        assert(opt_coords::<E>(U.comm_L) == opt_coords::<E>(U1.comm_L));
        assert(opt_coords::<E>(U.comm_ts) == opt_coords::<E>(U1.comm_ts));
    }
    assert(U_new == U@);
}

/// The number of bundles is not the number of tables.
pub const BUNDLES: &'static str = "a step needs one bundle per table";

/// The number of a step that is past the first and has one after it.
pub open spec fn countable<E: Engine>(i: int) -> bool {
    i < usize::MAX && i % E::Scalar::modulus() != 0
}

/// The tables of a shape.
pub open spec fn shape_tables<E: Engine>(shape: Option<LookupShape<E>>) -> Seq<
    MultiColumnLookupTable<E>,
> {
    match shape {
        Some(x) => x.multi_column_tables@,
        None => Seq::empty(),
    }
}

impl<E: Engine, C: StepCircuit<E::Scalar>> RecursiveSNARK<E, C> {
    /// The chain holds what the fold of the last step yields: the folded instance, its witness and
    /// the lookups folded so far.
    pub open spec fn folded_by(
        self,
        later: Self,
        pp: PublicParams<E, C>,
        bundles: Seq<PerTableBundle<E>>,
        m: FoldMessage<E>,
        out: FoldOutput<E>,
        public: Seq<LookupPayloadPublicMultiTable<E>>,
        r_E: int,
    ) -> bool {
        let digest = pp.digest_val();
        let tables = shape_tables(pp.lookup_shape);
        let (U1, W1, U2, W2) = (self.r_U, self.r_W, self.l_u, self.l_w);
        &&& public_of(public, bundles)
        &&& out.U == later.r_U
        &&& out.W == later.r_W
        &&& out.lws == later.running_lws
        &&& message_for(
            m,
            pp.ck,
            pp.structure,
            digest,
            U1,
            W1,
            U2,
            W2,
            bundles,
            tables,
            public,
            r_E,
        )
        &&& inverses_sent(m, pp.ck, bundles.len())
        &&& fold_follows(out, m, digest, U1, W1, U2, W2, bundles, public, r_E)
        &&& folded_natively(digest, U1, U2, out.nifs, public, out.U)
        &&& points_follow(
            out,
            m,
            bundles,
            logs_or_zeros::<E>(U1.comm_L, bundles.len()),
            logs_or_zeros::<E>(U1.comm_ts, bundles.len()),
            fold_r_b::<E>(fold_input(digest, U1, U2, m.nifs, public)),
        )
    }

    /// What a step makes of the chain.
    pub open spec fn stepped(
        self,
        later: Self,
        pp: PublicParams<E, C>,
        circuit: C,
        bundles: Seq<PerTableBundle<E>>,
    ) -> bool {
        &&& later.wf(pp)
        &&& later.z0@ == self.z0@
        &&& later.i == self.i + 1
        &&& if self.i == 0 {
            &&& later.zi == self.zi
            &&& later.r_U == self.r_U
            &&& later.l_u == self.l_u
            &&& later.ri == self.ri
            &&& later.running_lws == self.running_lws
        } else {
            &&& circuit.step(vals(self.zi@), vals(later.zi@))
            &&& vals(later.zi@) == circuit.output(vals(self.zi@))
            &&& exists|
                m: FoldMessage<E>,
                out: FoldOutput<E>,
                public: Seq<LookupPayloadPublicMultiTable<E>>,
                r_E: int,
            |
                self.folded_by(later, pp, bundles, m, out, public, r_E)
            &&& pp.lookup_fold_k > 0 ==> pp.registered_at(vals(self.zi@).last())
            &&& exists|nifs: NIFS<E>, public: Seq<LookupPayloadPublicMultiTable<E>>|
                public_of(public, bundles) && #[trigger] folded_natively(
                    pp.digest_val(),
                    self.r_U,
                    self.l_u,
                    nifs,
                    public,
                    later.r_U,
                )
            &&& committed(
                pp.ck,
                running_of(bundles),
                table_points::<E>(self.r_U.comm_L),
                table_points::<E>(self.r_U.comm_ts),
            ) && (forall|j: int|
                0 <= j < bundles.len() ==> bundle_committed(pp.ck, #[trigger] bundles[j]))
                ==> later.lookups_committed(pp)
        }
    }

    /// A step that goes through counts one more, keeps the first state and the width of the state,
    /// and leaves both instances satisfied and the public value of the new step the hash of where
    /// the chain now is. But for the first one, which only takes up what was laid out, it leads
    /// from the state before to what the circuit makes of it; the digest is registered where there
    /// are tables; the folded instance lies, at a challenge, between the folded instance before
    /// and the instance of the step before, in its commitments, its scalar and its public value;
    /// and its witness lies between the witnesses of these.
    pub proof fn law_step_advances(
        self,
        later: Self,
        pp: PublicParams<E, C>,
        circuit: C,
        bundles: Seq<PerTableBundle<E>>,
    ) -> (r: int)
        requires
            pp.wf(),
            self.wf(pp),
            self.stepped(later, pp, circuit, bundles),
        ensures
            later.i == self.i + 1,
            later.z0@ == self.z0@,
            later.zi@.len() == self.zi@.len(),
            pp.structure.satisfied_by(pp.ck, later.r_U, later.r_W),
            pp.structure.S.satisfied_by(pp.ck, later.l_u, later.l_w),
            later.l_u.X@[0].val() == state_hash::<E>(
                pp.pp_digest.val(),
                (later.i as int) % E::Scalar::modulus(),
                vals(later.z0@),
                vals(later.zi@),
                later.r_U@,
                later.ri.val(),
            ),
            self.i == 0 ==> {
                &&& later.zi@ == self.zi@
                &&& later.r_U@ == self.r_U@
                &&& later.l_u == self.l_u
                &&& later.running_lws@ == self.running_lws@
            },
            self.i > 0 ==> {
                let p = E::Scalar::modulus();
                &&& vals(later.zi@) == circuit.output(vals(self.zi@))
                &&& circuit.step(vals(self.zi@), vals(later.zi@))
                &&& pp.lookup_fold_k > 0 ==> pp.registered_at(vals(self.zi@).last())
                &&& later.r_U.comm_W.log() == ((1 - r) * self.r_U.comm_W.log() + r
                    * self.l_u.comm_W.log()) % p
                &&& later.r_U.u.val() == ((1 - r) * self.r_U.u.val() + r) % p
                &&& later.r_U.X@[0].val() == ((1 - r) * self.r_U.X@[0].val() + r
                    * self.l_u.X@[0].val()) % p
                &&& later.r_W.W@.len() == self.r_W.W@.len()
                &&& forall|k: int|
                    0 <= k < self.r_W.W@.len() ==> (#[trigger] later.r_W.W@[k]).val() == ((1 - r)
                        * self.r_W.W@[k].val() + r * self.l_w.W@[k].val()) % p
                &&& later.r_W.r_W.val() == ((1 - r) * self.r_W.r_W.val() + r
                    * self.l_w.r_W.val()) % p
                &&& later.running_lws@.len() == bundles.len()
            },
    {
        if self.i == 0 {
            0
        } else {
            let (m, out, public, r_E) = choose|
                m: FoldMessage<E>,
                out: FoldOutput<E>,
                public: Seq<LookupPayloadPublicMultiTable<E>>,
                r_E: int,
            |
                self.folded_by(later, pp, bundles, m, out, public, r_E);
            let digest = pp.digest_val();
            let x = fold_input(digest, self.r_U, self.l_u, m.nifs, public);
            assert(fold_input(digest, self.r_U, self.l_u, out.nifs, public) == x);
            law_native_fold_said(digest, self.r_U, self.l_u, out.nifs, public, out.U);
            law_prover_folds(
                out,
                m,
                pp.ck,
                pp.structure,
                digest,
                self.r_U,
                self.r_W,
                self.l_u,
                self.l_w,
                bundles,
                shape_tables(pp.lookup_shape),
                public,
                r_E,
            );
            fold_r_b::<E>(x)
        }
    }

    /// But for the first one, a step folds the lookups of its bundles into those folded before: in
    /// every table there are a challenge `r`, the same one for all tables, and a challenge `gamma`,
    /// such that each lookup is the one before times `1 - r` plus the address and the values of the
    /// bundle, combined with `gamma`, times `r`; in the same way each entry of the table, with the
    /// position and the columns of the table, and each multiplicity.
    pub proof fn law_step_folds_lookups(
        self,
        later: Self,
        pp: PublicParams<E, C>,
        circuit: C,
        bundles: Seq<PerTableBundle<E>>,
        j: int,
        i: int,
    ) -> (c: (int, int))
        requires
            pp.wf(),
            self.wf(pp),
            self.i > 0,
            self.stepped(later, pp, circuit, bundles),
            0 <= j < bundles.len(),
        ensures
            ({
                let p = E::Scalar::modulus();
                let (r, gamma) = c;
                let b = bundles[j];
                let lw = later.running_lws@[j];
                let t = shape_tables(pp.lookup_shape)[j];
                &&& later.running_lws@.len() == bundles.len()
                &&& lw.witness@.len() == b.running_lw.witness@.len()
                &&& lw.table@.len() == b.running_lw.table@.len()
                &&& lw.multiplicities@.len() == b.running_lw.multiplicities@.len()
                &&& 0 <= i < lw.witness@.len() ==> lw.witness@[i].val() == ((1 - r)
                    * b.running_lw.witness@[i].val() + r * fresh_lookups(b, gamma)[i]) % p
                &&& 0 <= i < lw.table@.len() ==> lw.table@[i].val() == ((1 - r)
                    * b.running_lw.table@[i].val() + r * table_column(t, gamma)[i]) % p
                &&& 0 <= i < lw.table@.len() ==> lw.multiplicities@[i].val() == ((1 - r)
                    * b.running_lw.multiplicities@[i].val() + r * b.fresh_multiplicities@[i].val())
                    % p
            }),
    {
        let (m, out, public, r_E) = choose|
            m: FoldMessage<E>,
            out: FoldOutput<E>,
            public: Seq<LookupPayloadPublicMultiTable<E>>,
            r_E: int,
        |
            self.folded_by(later, pp, bundles, m, out, public, r_E);
        let digest = pp.digest_val();
        let x = fold_input(digest, self.r_U, self.l_u, m.nifs, public);
        law_prover_folds(
            out,
            m,
            pp.ck,
            pp.structure,
            digest,
            self.r_U,
            self.r_W,
            self.l_u,
            self.l_w,
            bundles,
            shape_tables(pp.lookup_shape),
            public,
            r_E,
        );
        let inst = m.tables.instances@[j];
        let r = fold_r_b::<E>(x);
        let lw = later.running_lws@[j];
        law_running_mixed(inst, r, lw, i);
        assert(inst.w1().base.len() == inst.w2().base.len());
        assert(inst.t1().base.len() == inst.t2().base.len());
        assert(inst.t1().num.len() == inst.t1().base.len());
        if 0 <= i < lw.witness@.len() {
            assert(vals(inst.w2_poly.Z@)[i] == inst.w2_poly.Z@[i].val());
        }
        if 0 <= i < lw.table@.len() {
            assert(vals(inst.t2_poly.Z@)[i] == inst.t2_poly.Z@[i].val());
        }
        (r, table_gamma::<E>(x, j))
    }

    /// Folds the last step into the chain and lays out the next one, with given lookups and
    /// blindings. The first call takes up the step that was laid out at the beginning.
    #[verifier::rlimit(40)]
    pub fn advance(
        &mut self,
        pp: &PublicParams<E, C>,
        circuit: &C,
        bundles: &Vec<PerTableBundle<E>>,
        r_E: E::Scalar,
        r_next: E::Scalar,
        blind: E::Scalar,
    ) -> (r: Result<(), NovaError>)
        requires
            pp.wf(),
            circuit.width() == pp.F_arity,
            old(self).wf(*pp),
        ensures
            old(self).i == 0 ==> r is Ok,
            old(self).i > 0 && bundles@.len() != pp.lookup_fold_k ==> r is Err
                && r->Err_0 is ProofVerifyError && r->Err_0->ProofVerifyError_reason@ == BUNDLES@,
            old(self).i > 0 && bundles@.len() == pp.lookup_fold_k && !countable::<E>(
                old(self).i as int,
            ) ==> r is Err && r->Err_0 == NovaError::InvalidNumSteps,
            old(self).i > 0 && bundles@.len() == pp.lookup_fold_k && countable::<E>(
                old(self).i as int,
            ) && !fold_ready(pp.ck, old(self).r_U, bundles@, shape_tables(pp.lookup_shape))
                ==> r is Err && r->Err_0 is ProofVerifyError
                && r->Err_0->ProofVerifyError_reason@ == BUNDLE_SHAPE@,
            r is Err ==> *final(self) == *old(self),
            r is Ok ==> old(self).stepped(*final(self), *pp, *circuit, bundles@),
            r is Ok && old(self).i > 0 ==> {
                &&& final(self).ri == r_next
                &&& final(self).l_w.r_W == blind
                &&& exists|
                    m: FoldMessage<E>,
                    out: FoldOutput<E>,
                    public: Seq<LookupPayloadPublicMultiTable<E>>,
                | #[trigger]
                    old(self).folded_by(
                        *final(self),
                        *pp,
                        bundles@,
                        m,
                        out,
                        public,
                        r_E.val(),
                    )
            },
    {
        if self.i == 0 {
            self.i = 1;
            return Ok(());
        }
        let ghost before = *self;
        let ghost p = E::Scalar::modulus();
        let k: usize = pp.lookup_fold_k;
        if bundles.len() != k {
            return Err(NovaError::ProofVerifyError { reason: BUNDLES.to_owned() });
        }
        let step = E::Scalar::from_u64(self.i as u64);
        if self.i == usize::MAX || step.same(E::Scalar::zero()) {
            return Err(NovaError::InvalidNumSteps);
        }
        let none: Vec<MultiColumnLookupTable<E>> = Vec::new();
        let tables = match &pp.lookup_shape {
            Some(x) => &x.multi_column_tables,
            None => &none,
        };
        assert(tables@ == shape_tables(pp.lookup_shape));
        let public = public_bundles(bundles);
        let fold = match NIFS::prove_with_multi_table_lookup(
            &pp.ck,
            &pp.structure,
            pp.digest(),
            &self.r_U,
            &self.r_W,
            &self.l_u,
            &self.l_w,
            bundles,
            tables,
            &public,
            r_E,
        ) {
            Ok(x) => x,
            Err(e) => {
                return Err(e);
            },
        };
        let ghost fold0 = fold;
        let FoldOutput { nifs, U, W, lws } = fold;
        let ghost nifs0 = nifs;
        let ghost public0 = public@;
        let ghost m = choose|m: FoldMessage<E>|
            {
                &&& #[trigger] message_for(
                    m,
                    pp.ck,
                    pp.structure,
                    pp.digest_val(),
                    before.r_U,
                    before.r_W,
                    before.l_u,
                    before.l_w,
                    bundles@,
                    tables@,
                    public0,
                    r_E.val(),
                )
                &&& fold_follows(
                    fold0,
                    m,
                    pp.digest_val(),
                    before.r_U,
                    before.r_W,
                    before.l_u,
                    before.l_w,
                    bundles@,
                    public0,
                    r_E.val(),
                )
                &&& inverses_sent(m, pp.ck, bundles@.len())
                &&& points_follow(
                    fold0,
                    m,
                    bundles@,
                    logs_or_zeros::<E>(before.r_U.comm_L, bundles@.len()),
                    logs_or_zeros::<E>(before.r_U.comm_ts, bundles@.len()),
                    fold_r_b::<E>(
                        fold_input(pp.digest_val(), before.r_U, before.l_u, m.nifs, public0),
                    ),
                )
            };
        let mut l_u_X: Vec<E::Scalar> = Vec::new();
        l_u_X.push(self.l_u.X[0]);
        let inputs = NeutronAugmentedCircuitInputs::<E>::new(
            pp.digest(),
            step,
            copy_scalars(&self.z0),
            Some(copy_scalars(&self.zi)),
            Some(self.r_U.duplicate()),
            Some(self.ri),
            r_next,
            Some(R1CSInstance { comm_W: self.l_u.comm_W, X: l_u_X }),
            Some(nifs),
            Some(U.comm_W),
            Some(U.comm_E),
        ).with_multi_table_bundles(Some(public));
        let ghost inputs0 = inputs;
        proof {
            assert(l_u_X@ =~= before.l_u.X@);
            assert forall|j: int| 0 <= j < opt_len(nifs0.poly_lookup) implies (
            #[trigger] nifs0.poly_lookup->Some_0@[j])@.len() <= 6 by {
                assert(poly_vals(nifs0.poly_lookup)[j].len() == 6);
            }
        }
        let o = match lay_out(pp, circuit, inputs, blind) {
            Ok(o) => o,
            Err(e) => {
                return Err(e);
            },
        };
        proof {
            let registry = choose|registry: &[E::Scalar]|
                registry@ == pp.shape_registry@ && laid_out(
                    o,
                    *pp,
                    #[trigger] augmented(*pp, circuit, inputs0, registry),
                );
            let a = augmented(*pp, circuit, inputs0, registry);
            let v = a.step_val();
            let U_new = choose|U: FoldedVal|
                {
                    &&& #[trigger] next_instance::<E>(v, a.lookup_val(), a.k(), U)
                    &&& o.u.X@[0].val() == next_hash::<E>(v, vals(o.z@), U)
                };
            assert(inputs0.z0@.take(pp.F_arity as int) =~= before.z0@);
            assert(inputs0.zi->Some_0@.take(pp.F_arity as int) =~= before.zi@);
            assert(v.i == step.val());
            assert(carries_fold(
                inputs0,
                pp.digest_val(),
                before.r_U,
                before.l_u,
                nifs0,
                public0,
                U,
            ));
            law_circuit_folds_alike(
                a,
                inputs0,
                pp.digest_val(),
                before.r_U,
                before.l_u,
                nifs0,
                public0,
                U,
                U_new,
            );
            E::Scalar::lemma_modulus();
            lemma_residue(p, before.i as int);
            lemma_cong_add(p, (before.i as int) % p, 1, before.i as int, 1);
        }
        let next = RecursiveSNARK {
            z0: copy_scalars(&self.z0),
            r_W: W,
            r_U: U,
            ri: r_next,
            l_w: o.w,
            l_u: o.u,
            i: self.i + 1,
            zi: o.z,
            running_lws: lws,
            _p: std::marker::PhantomData,
        };
        proof {
            assert(next.wf(*pp));
            assert(folded_natively(
                pp.digest_val(),
                before.r_U,
                before.l_u,
                nifs0,
                public0,
                next.r_U,
            ));
            assert(before.folded_by(next, *pp, bundles@, m, fold0, public0, r_E.val()));
        }
        *self = next;
        Ok(())
    }

    /// Begins a chain at `z0` with blindings from the operating system.
    pub fn new(pp: &PublicParams<E, C>, circuit: &C, z0: &[E::Scalar]) -> (r: Result<
        Self,
        NovaError,
    >)
        requires
            pp.wf(),
            circuit.width() == pp.F_arity,
        ensures
            r == Err::<Self, NovaError>(NovaError::InvalidInitialInputLength) <==> z0@.len()
                != pp.F_arity,
            r == Err::<Self, NovaError>(NovaError::RandomnessUnavailable) || exists|
                ri: E::Scalar,
                blind: E::Scalar,
            | #[trigger] Self::begun(*pp, circuit, z0@, ri, blind, r),
            r is Ok ==> {
                let s = r->Ok_0;
                &&& s.wf(*pp)
                &&& s.lookups_committed(*pp)
                &&& s.i == 0
                &&& s.z0@ == z0@
                &&& s.r_U@ == default_folded(1, some_tables(pp.lookup_fold_k as nat))
                &&& circuit.step(vals(z0@), vals(s.zi@))
                &&& vals(s.zi@) == circuit.output(vals(z0@))
                &&& pp.lookup_fold_k > 0 ==> pp.registered_at(0)
            },
    {
        if z0.len() != pp.F_arity {
            let e = Err(NovaError::InvalidInitialInputLength);
            assert(Self::begun(*pp, circuit, z0@, pp.pp_digest, pp.pp_digest, e));
            return e;
        }
        let ri = match random_scalar::<E::Scalar>() {
            Ok(x) => x,
            Err(_) => {
                return Err(NovaError::RandomnessUnavailable);
            },
        };
        let blind = match random_scalar::<E::Scalar>() {
            Ok(x) => x,
            Err(_) => {
                return Err(NovaError::RandomnessUnavailable);
            },
        };
        Self::new_with(pp, circuit, z0, ri, blind)
    }
}

impl<E: Engine, C: LookupStepCircuit<E>> RecursiveSNARK<E, C> {
    /// Folds the last step into the chain and lays out the next one, with the lookups that the
    /// circuit gives for the step and blindings from the operating system.
    pub fn prove_step_with_lookup_fold(&mut self, pp: &PublicParams<E, C>, circuit: &C) -> (r:
        Result<(), NovaError>)
        requires
            pp.wf(),
            circuit.width() == pp.F_arity,
            old(self).wf(*pp),
        ensures
            old(self).i == 0 ==> r is Ok,
            r is Err ==> *final(self) == *old(self),
            r is Ok ==> exists|bundles: Seq<PerTableBundle<E>>| #[trigger]
                old(self).stepped(*final(self), *pp, *circuit, bundles),
    {
        if self.i == 0 {
            let none: Vec<PerTableBundle<E>> = Vec::new();
            let zero = E::Scalar::zero();
            return self.advance(pp, circuit, &none, zero, zero, zero);
        }
        let bundles = circuit.per_table_bundles_at_step(&pp.ck, self.i, &self.running_lws)?;
        let r_E = random_scalar::<E::Scalar>()?;
        let r_next = random_scalar::<E::Scalar>()?;
        let blind = random_scalar::<E::Scalar>()?;
        self.advance(pp, circuit, &bundles, r_E, r_next, blind)
    }
}

} // verus!
