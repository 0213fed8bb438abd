//! The step that changes nothing and looks up zeros.

use crate::bundle::{bundle_committed, LookupPayload, PerTableBundle};
use crate::commitment::CommitmentKey;
use crate::engine::{Engine, Group};
use crate::errors::{NovaError, SynthesisError};
use crate::field::PrimeField;
use crate::frontend::{AllocatedNum, ConstraintSystem, Layout};
use crate::point::copy_nums;
use crate::poly::vals;
use crate::recursive::LookupStepCircuit;
use crate::relation::{same_running, zeros, LookupRunningWitness};
use crate::step_circuit::StepCircuit;
use vstd::prelude::*;

verus! {

/// The step that keeps a state of one value. In every table it looks up as many zeros as were
/// folded there before, without counting them.
pub struct IdentityStepCircuit {}

impl IdentityStepCircuit {
    /// The idle step.
    pub fn new() -> (r: Self)
        ensures
            r == (IdentityStepCircuit {  }),
    {
        IdentityStepCircuit {  }
    }
}

impl<F: PrimeField> StepCircuit<F> for IdentityStepCircuit {
    open spec fn width(&self) -> nat {
        1
    }

    open spec fn step(&self, z: Seq<int>, out: Seq<int>) -> bool {
        out == z
    }

    open spec fn output(&self, z: Seq<int>) -> Seq<int> {
        z
    }

    open spec fn produces(&self, z: Option<Seq<int>>) -> Option<nat> {
        Some(1)
    }

    open spec fn layout_after(&self, l: Layout, z: Seq<int>) -> (Layout, Seq<int>) {
        (l, z)
    }

    fn arity(&self) -> (r: usize) {
        1
    }

    fn synthesize(&self, cs: &mut ConstraintSystem<F>, z: &Vec<AllocatedNum<F>>) -> (r: Result<
        Vec<AllocatedNum<F>>,
        SynthesisError,
    >) {
        Ok(copy_nums(z))
    }
}

/// Every running witness fits into a key of length `m`.
pub open spec fn lws_fit<E: Engine>(lws: Seq<LookupRunningWitness<E>>, m: nat) -> bool {
    forall|j: int|
        0 <= j < lws.len() ==> (#[trigger] lws[j]).witness@.len() <= m
            && lws[j].multiplicities@.len() <= m
}

/// The bundle looks up zeros only, in the table with the given number: as many as were folded
/// before, in no value column, with multiplicities and weights of zero.
pub open spec fn looks_up_zeros<E: Engine>(b: PerTableBundle<E>, j: int) -> bool {
    let lw = b.running_lw;
    &&& b.table_id == j as u64
    &&& vals(b.fresh_witness_address@) == Seq::new(lw.witness@.len(), |i: int| 0int)
    &&& b.fresh_witness_value_columns@.len() == 0
    &&& vals(b.fresh_multiplicities@) == Seq::new(lw.multiplicities@.len(), |i: int| 0int)
    &&& vals(b.fresh_eq_w_left@) == Seq::new(lw.eq_w_left@.len(), |i: int| 0int)
    &&& vals(b.fresh_eq_w_right@) == Seq::new(lw.eq_w_right@.len(), |i: int| 0int)
    &&& vals(b.fresh_eq_t_left@) == Seq::new(lw.eq_t_left@.len(), |i: int| 0int)
    &&& vals(b.fresh_eq_t_right@) == Seq::new(lw.eq_t_right@.len(), |i: int| 0int)
}

impl<E: Engine> LookupStepCircuit<E> for IdentityStepCircuit {
    fn per_table_bundles_at_step(
        &self,
        ck: &CommitmentKey<E>,
        i: usize,
        prior_running_lws: &Vec<LookupRunningWitness<E>>,
    ) -> (r: Result<Vec<PerTableBundle<E>>, NovaError>)
        ensures
            r is Ok <==> lws_fit(prior_running_lws@, ck.ck@.len()),
            r is Err ==> r->Err_0 == NovaError::InvalidCommitmentKeyLength,
            r is Ok ==> {
                &&& r->Ok_0@.len() == prior_running_lws@.len()
                &&& forall|j: int|
                    0 <= j < prior_running_lws@.len() ==> {
                        &&& bundle_committed(*ck, #[trigger] r->Ok_0@[j])
                        &&& same_running(r->Ok_0@[j].running_lw, prior_running_lws@[j])
                        &&& looks_up_zeros(r->Ok_0@[j], j)
                    }
            },
    {
        let zero = E::Scalar::zero();
        let m: usize = ck.ck.len();
        let k: usize = prior_running_lws.len();
        let mut r: Vec<PerTableBundle<E>> = Vec::new();
        let mut j: usize = 0;
        while j < k
            invariant
                j <= k,
                k == prior_running_lws@.len(),
                m == ck.ck@.len(),
                zero.val() == 0,
                r@.len() == j,
                forall|l: int|
                    0 <= l < j ==> (#[trigger] prior_running_lws@[l]).witness@.len() <= m
                        && prior_running_lws@[l].multiplicities@.len() <= m,
                forall|l: int|
                    0 <= l < j ==> {
                        &&& bundle_committed(*ck, #[trigger] r@[l])
                        &&& same_running(r@[l].running_lw, prior_running_lws@[l])
                        &&& looks_up_zeros(r@[l], l)
                    },
            decreases k - j,
        {
            let lw = &prior_running_lws[j];
            if lw.witness.len() > m || lw.multiplicities.len() > m {
                assert(!lws_fit(prior_running_lws@, m as nat)) by {
                    let l = prior_running_lws@[j as int];
                    assert(l.witness@.len() > m || l.multiplicities@.len() > m);
                }
                return Err(NovaError::InvalidCommitmentKeyLength);
            }
            let addr = zeros::<E::Scalar>(lw.witness.len());
            let mult = zeros::<E::Scalar>(lw.multiplicities.len());
            let payload = LookupPayload {
                comm_L: ck.commit(&addr, &zero),
                comm_ts: ck.commit(&mult, &zero),
                comm_inv_w: E::GE::identity(),
                comm_inv_t: E::GE::identity(),
                T2_lookup: zero,
                comm_values: Vec::new(),
            };
            r.push(
                PerTableBundle {
                    table_id: j as u64,
                    payload,
                    fresh_witness_address: addr,
                    fresh_witness_value_columns: Vec::new(),
                    fresh_multiplicities: mult,
                    fresh_eq_w_left: zeros(lw.eq_w_left.len()),
                    fresh_eq_w_right: zeros(lw.eq_w_right.len()),
                    fresh_eq_t_left: zeros(lw.eq_t_left.len()),
                    fresh_eq_t_right: zeros(lw.eq_t_right.len()),
                    running_lw: lw.duplicate(),
                },
            );
            j = j + 1;
        }
        Ok(r)
    }
}

/// What an idle step looks up is nothing: in every table as many lookups as before, each of them
/// zero, and no value columns; every multiplicity and every weight is zero.
pub proof fn law_idle_lookups<E: Engine>(b: PerTableBundle<E>, j: int, i: int)
    requires
        looks_up_zeros(b, j),
    ensures
        b.fresh_witness_address@.len() == b.running_lw.witness@.len(),
        b.fresh_multiplicities@.len() == b.running_lw.multiplicities@.len(),
        b.fresh_eq_w_left@.len() == b.running_lw.eq_w_left@.len(),
        b.fresh_eq_w_right@.len() == b.running_lw.eq_w_right@.len(),
        b.fresh_eq_t_left@.len() == b.running_lw.eq_t_left@.len(),
        b.fresh_eq_t_right@.len() == b.running_lw.eq_t_right@.len(),
        b.fresh_witness_value_columns@.len() == 0,
        0 <= i < b.fresh_witness_address@.len() ==> b.fresh_witness_address@[i].val() == 0,
        0 <= i < b.fresh_multiplicities@.len() ==> b.fresh_multiplicities@[i].val() == 0,
        0 <= i < b.fresh_eq_w_left@.len() ==> b.fresh_eq_w_left@[i].val() == 0,
        0 <= i < b.fresh_eq_w_right@.len() ==> b.fresh_eq_w_right@[i].val() == 0,
        0 <= i < b.fresh_eq_t_left@.len() ==> b.fresh_eq_t_left@[i].val() == 0,
        0 <= i < b.fresh_eq_t_right@.len() ==> b.fresh_eq_t_right@[i].val() == 0,
{
    lemma_zero_at(b.fresh_witness_address@, b.running_lw.witness@.len(), i);
    lemma_zero_at(b.fresh_multiplicities@, b.running_lw.multiplicities@.len(), i);
    lemma_zero_at(b.fresh_eq_w_left@, b.running_lw.eq_w_left@.len(), i);
    lemma_zero_at(b.fresh_eq_w_right@, b.running_lw.eq_w_right@.len(), i);
    lemma_zero_at(b.fresh_eq_t_left@, b.running_lw.eq_t_left@.len(), i);
    lemma_zero_at(b.fresh_eq_t_right@, b.running_lw.eq_t_right@.len(), i);
}

proof fn lemma_zero_at<F: PrimeField>(v: Seq<F>, n: nat, i: int)
    requires
        vals(v) == Seq::new(n, |i: int| 0int),
    ensures
        v.len() == n,
        0 <= i < n ==> v[i].val() == 0,
{
    assert(vals(v).len() == v.len());
    if 0 <= i < n {
        assert(vals(v)[i] == v[i].val());
    }
}

} // verus!
