//! The verifier of a fold inside a circuit.

use crate::circuit::lookup::{
    alloc_eq, carried_name, carry_claim, claim_carried, eq_at, lay_carry, lay_eq, polys_at,
    polys_valid, AllocatedLookupNIFS,
    AllocatedLookupNIFSMultiTable, AllocatedLookupPayloadPublicMultiTable,
};
use crate::circuit::r1cs::{r1cs_inputs, AllocatedNonnativeR1CSInstance};
use crate::circuit::relation::{
    absorb_alloc_points, copy_alloc_points, fold_names, fold_val, lay_fold, points_at,
    points_valid, refused_for,
    AllocatedFoldedInstance, FOLD_ARITY,
};
use crate::engine::{
    identity_coordinates, Engine, Group, RO2Circuit, RoItem, NUM_CHALLENGE_BITS, POINT_LIMBS,
};
use crate::errors::SynthesisError;
use crate::field::{
    is_prime, lemma_cancel, lemma_cong_mul, lemma_reduced, lemma_residue, PrimeField,
};
use crate::frontend::{
    fresh, lemma_at_range, less, once, unit, AllocatedNum, ConstraintSystem, Layout,
    LinearCombination, Valuation, Variable,
};
use crate::gadgets::{lay_product, nums_at, nums_valid, product};
use crate::point::{absorb_nums, absorbs, copy_nums, AllocatedNonnativePoint};
use crate::poly::{claim_met, lay_claim_met, padded_poly, AllocatedUniPoly};
use crate::relation::{concat_all, FoldedVal, R1CSVal, TableVal, NIFS};
use crate::shape_registry::{assert_pp_digest_matches_registry, lay_registered, registered};
use crate::text::{append_number, decimal};
use vstd::prelude::*;
use vstd::string::StringExecFns;

verus! {

/// What a fold is verified on, as plain integers.
pub struct FoldInput {
    /// The digest of the public parameters.
    pub pp: int,
    /// The running instance.
    pub U1: FoldedVal,
    /// The instance that is folded in.
    pub U2: R1CSVal,
    /// The prover's commitment to the new error vector.
    pub comm_E: Seq<int>,
    /// The prover's round polynomial.
    pub poly: Seq<int>,
    /// The public side of the lookups, table by table.
    pub tables: Seq<TableVal>,
    /// The prover's lookup polynomials, table by table.
    pub polys: Seq<Seq<int>>,
    /// The prover's commitments to the inverses of the witnesses, table by table.
    pub inv_w: Seq<Seq<int>>,
    /// The prover's commitments to the inverses of the tables, table by table.
    pub inv_t: Seq<Seq<int>>,
    /// The running claims, table by table.
    pub running: Seq<int>,
}

/// The numbers by which a random oracle takes in the lookups in one table.
pub open spec fn table_inputs(t: TableVal) -> Seq<int> {
    t.comm_L + concat_all(t.comm_values) + t.comm_ts
}

/// The numbers by which a random oracle takes in the lookups in all tables.
pub open spec fn tables_inputs(s: Seq<TableVal>) -> Seq<int>
    decreases s.len(),
{
    if s.len() == 0 {
        Seq::empty()
    } else {
        tables_inputs(s.drop_last()) + table_inputs(s.last())
    }
}

/// How many of the tables have value columns.
pub open spec fn with_columns(s: Seq<TableVal>) -> nat
    decreases s.len(),
{
    if s.len() == 0 {
        0
    } else {
        with_columns(s.drop_last()) + if s.last().comm_values.len() > 0 {
            1nat
        } else {
            0nat
        }
    }
}

/// A number of challenges given out one after the other.
pub open spec fn squeezes(n: nat) -> Seq<RoItem<int>> {
    Seq::new(n, |i: int| RoItem::Squeeze(NUM_CHALLENGE_BITS))
}

/// What the random oracle has seen when it gives out `tau`.
pub open spec fn tau_log(x: FoldInput) -> Seq<RoItem<int>> {
    absorbs(seq![x.pp] + r1cs_inputs(x.U2) + tables_inputs(x.tables))
}

/// What the random oracle has seen when it gives out `rho`.
pub open spec fn rho_log(x: FoldInput) -> Seq<RoItem<int>> {
    tau_log(x).push(RoItem::Squeeze(NUM_CHALLENGE_BITS)) + absorbs(x.comm_E)
}

/// What the random oracle has seen when all challenges but `r_b` are given out: besides what came
/// before, a challenge for each table with value columns, and one for each table.
pub open spec fn tables_log(x: FoldInput) -> Seq<RoItem<int>> {
    rho_log(x).push(RoItem::Squeeze(NUM_CHALLENGE_BITS)) + squeezes(with_columns(x.tables))
        + squeezes(x.tables.len())
}

/// What the random oracle has seen when it gives out `r_b`: besides what came before, the
/// commitments to the inverses and the round polynomials.
pub open spec fn r_b_log(x: FoldInput) -> Seq<RoItem<int>> {
    tables_log(x) + absorbs(
        concat_all(x.inv_w) + concat_all(x.inv_t) + x.poly + concat_all(x.polys),
    )
}

/// The challenge that separates the two folded instances.
pub open spec fn fold_rho<E: Engine>(x: FoldInput) -> int {
    E::challenge(rho_log(x), NUM_CHALLENGE_BITS)
}

/// The challenge that the instances are folded at.
pub open spec fn fold_r_b<E: Engine>(x: FoldInput) -> int {
    E::challenge(r_b_log(x), NUM_CHALLENGE_BITS)
}

/// The equality polynomial at the two challenges.
pub open spec fn fold_eq<E: Engine>(x: FoldInput) -> int {
    eq_at(E::Scalar::modulus(), fold_rho::<E>(x), fold_r_b::<E>(x))
}

/// The round polynomials meet the claims: that of the instance the running claim times one minus
/// `rho`, that of each table the running claim of the table.
pub open spec fn fold_checks<E: Engine>(x: FoldInput) -> bool {
    let p = E::Scalar::modulus();
    &&& claim_met(p, x.poly, (x.U1.T * (1 - fold_rho::<E>(x))) % p)
    &&& forall|j: int|
        0 <= j < x.polys.len() ==> claim_met(p, #[trigger] x.polys[j], x.running[j])
}

/// `out` and `t_outs` are what the fold yields: the folded instance, and the carried claims of
/// the tables.
pub open spec fn folds_to<E: Engine>(
    x: FoldInput,
    comm_w: Seq<int>,
    comm_e: Seq<int>,
    out: FoldedVal,
    t_outs: Seq<int>,
) -> bool {
    let p = E::Scalar::modulus();
    let r_b = fold_r_b::<E>(x);
    let eq = fold_eq::<E>(x);
    &&& out == fold_val(p, x.U1, x.U2.X, r_b, out.T, comm_w, comm_e)
    &&& claim_carried(p, x.poly, eq, r_b, out.T)
    &&& 0 <= out.T < p
    &&& t_outs.len() == x.polys.len()
    &&& forall|j: int|
        0 <= j < x.polys.len() ==> claim_carried(p, x.polys[j], eq, r_b, #[trigger] t_outs[j]) && 0
            <= t_outs[j] < p
}

/// A carried claim is unique where the equality polynomial does not vanish.
pub proof fn law_carried_claim_unique(p: int, poly: Seq<int>, eq: int, r_b: int, t1: int, t2: int)
    requires
        is_prime(p),
        0 < eq < p,
        claim_carried(p, poly, eq, r_b, t1),
        claim_carried(p, poly, eq, r_b, t2),
        0 <= t1 < p,
        0 <= t2 < p,
    ensures
        t1 == t2,
{
    lemma_reduced(p, eq);
    lemma_cancel(p, t1, t2, eq);
    lemma_reduced(p, t1);
    lemma_reduced(p, t2);
}

/// The claims of the tables are bound one by one: a message that is accepted with two lists of
/// running claims is accepted with equal ones, so that no claim can make up for another.
pub proof fn law_running_claims_bound<E: Engine>(x: FoldInput, running: Seq<int>, j: int)
    requires
        fold_checks::<E>(x),
        fold_checks::<E>(FoldInput { running, ..x }),
        0 <= j < x.polys.len(),
    ensures
        running[j] == x.running[j],
{
    let p = E::Scalar::modulus();
    let y = FoldInput { running, ..x };
    assert(claim_met(p, x.polys[j], x.running[j]));
    assert(claim_met(p, y.polys[j], y.running[j]));
}

/// What a fold yields is unique: whoever computes it from the same input, inside a circuit or
/// outside, gets the same instance and the same claims.
pub proof fn law_fold_unique<E: Engine>(
    x: FoldInput,
    comm_w: Seq<int>,
    comm_e: Seq<int>,
    out1: FoldedVal,
    t1: Seq<int>,
    out2: FoldedVal,
    t2: Seq<int>,
)
    requires
        fold_eq::<E>(x) != 0,
        folds_to::<E>(x, comm_w, comm_e, out1, t1),
        folds_to::<E>(x, comm_w, comm_e, out2, t2),
    ensures
        out1 == out2,
        t1 == t2,
{
    let p = E::Scalar::modulus();
    E::Scalar::lemma_modulus();
    let eq = fold_eq::<E>(x);
    let r_b = fold_r_b::<E>(x);
    let rho = fold_rho::<E>(x);
    lemma_residue(p, (1 - rho) * (1 - r_b) + rho * r_b);
    law_carried_claim_unique(p, x.poly, eq, r_b, out1.T, out2.T);
    assert forall|j: int| 0 <= j < x.polys.len() implies #[trigger] t1[j] == t2[j] by {
        assert(claim_carried(p, x.polys[j], eq, r_b, t2[j]));
        law_carried_claim_unique(p, x.polys[j], eq, r_b, t1[j], t2[j]);
    }
    assert(t1 =~= t2);
}

/// The payloads of a sequence under a valuation.
pub open spec fn payloads_at<E: Engine>(
    v: Seq<AllocatedLookupPayloadPublicMultiTable<E>>,
    e: Valuation,
) -> Seq<TableVal> {
    Seq::new(v.len(), |i: int| v[i].at(e))
}

/// The payloads of a sequence belong to the system.
pub open spec fn payloads_valid<E: Engine>(
    cs: ConstraintSystem<E::Scalar>,
    v: Seq<AllocatedLookupPayloadPublicMultiTable<E>>,
) -> bool {
    forall|i: int| 0 <= i < v.len() ==> (#[trigger] v[i]).valid(cs)
}

/// The message that a prover sends for one fold, inside a circuit.
pub struct AllocatedNIFS<E: Engine> {
    pub comm_E: AllocatedNonnativePoint<E>,
    pub poly: AllocatedUniPoly<E::Scalar>,
}

/// The numbers and points of a fold inside a circuit.
struct FoldArgs<'a, E: Engine> {
    pp_digest: &'a AllocatedNum<E::Scalar>,
    U1: &'a AllocatedFoldedInstance<E>,
    U2: &'a AllocatedNonnativeR1CSInstance<E>,
    nifs: &'a AllocatedNIFS<E>,
    tables: &'a Vec<AllocatedLookupPayloadPublicMultiTable<E>>,
    polys: &'a Vec<AllocatedUniPoly<E::Scalar>>,
    inv_w: &'a Vec<AllocatedNonnativePoint<E>>,
    inv_t: &'a Vec<AllocatedNonnativePoint<E>>,
    running: &'a Vec<AllocatedNum<E::Scalar>>,
}

impl<'a, E: Engine> FoldArgs<'a, E> {
    spec fn at(self, e: Valuation) -> FoldInput {
        FoldInput {
            pp: self.pp_digest.at(e),
            U1: self.U1.at(e),
            U2: self.U2.at(e),
            comm_E: self.nifs.comm_E.at(e),
            poly: self.nifs.poly.at(e),
            tables: payloads_at(self.tables@, e),
            polys: polys_at(self.polys@, e),
            inv_w: points_at(self.inv_w@, e),
            inv_t: points_at(self.inv_t@, e),
            running: nums_at(self.running@, e),
        }
    }

    spec fn valid(self, cs: ConstraintSystem<E::Scalar>) -> bool {
        &&& cs.valid(*self.pp_digest)
        &&& self.U1.valid(cs)
        &&& self.U2.valid(cs)
        &&& self.nifs.valid(cs)
        &&& payloads_valid(cs, self.tables@)
        &&& polys_valid(cs, self.polys@)
        &&& points_valid(cs, self.inv_w@)
        &&& points_valid(cs, self.inv_t@)
        &&& nums_valid(cs, self.running@)
        &&& self.polys@.len() == self.tables@.len()
        &&& self.inv_w@.len() == self.tables@.len()
        &&& self.inv_t@.len() == self.tables@.len()
        &&& self.running@.len() == self.tables@.len()
    }

    proof fn lemma_valid_grows(
        self,
        before: ConstraintSystem<E::Scalar>,
        later: ConstraintSystem<E::Scalar>,
    )
        requires
            before.grows(later),
            self.valid(before),
        ensures
            self.valid(later),
    {
        assert forall|i: int| 0 <= i < self.tables@.len() implies (
        #[trigger] self.tables@[i]).valid(later) by {
            assert(self.tables@[i].valid(before));
        }
        assert forall|i: int| 0 <= i < self.polys@.len() implies (#[trigger] self.polys@[i]).valid(
            later,
        ) && self.polys@[i].coeffs@.len() > 0 by {
            assert(self.polys@[i].valid(before));
        }
        assert forall|i: int| 0 <= i < self.inv_w@.len() implies (#[trigger] self.inv_w@[i]).valid(
            later,
        ) by {
            assert(self.inv_w@[i].valid(before));
        }
        assert forall|i: int| 0 <= i < self.inv_t@.len() implies (#[trigger] self.inv_t@[i]).valid(
            later,
        ) by {
            assert(self.inv_t@[i].valid(before));
        }
        self.U1.lemma_valid_grows(before, later);
    }

    fn absorb_tables(&self, ro: &mut RO2Circuit<E>, Ghost(cs): Ghost<ConstraintSystem<E::Scalar>>)
        requires
            self.valid(cs),
            old(ro).valid(cs),
        ensures
            final(ro).valid(cs),
            forall|e: Valuation| #[trigger]
                final(ro).at(e) == old(ro).at(e) + absorbs(
                    tables_inputs(payloads_at(self.tables@, e)),
                ),
    {
        let n: usize = self.tables.len();
        let mut i: usize = 0;
        proof {
            assert forall|e: Valuation| #[trigger] ro.at(e) == old(ro).at(e) + absorbs(
                tables_inputs(payloads_at(self.tables@, e).take(0)),
            ) by {
                assert(ro.at(e) =~= old(ro).at(e) + absorbs(
                    tables_inputs(payloads_at(self.tables@, e).take(0)),
                ));
            }
        }
        while i < n
            invariant
                i <= n,
                n == self.tables@.len(),
                self.valid(cs),
                ro.valid(cs),
                forall|e: Valuation| #[trigger]
                    ro.at(e) == old(ro).at(e) + absorbs(
                        tables_inputs(payloads_at(self.tables@, e).take(i as int)),
                    ),
            decreases n - i,
        {
            let ghost s0 = *ro;
            let b = &self.tables[i];
            proof {
                assert(self.tables@[i as int].valid(cs));
            }
            b.comm_L.absorb_in_ro(ro);
            let ghost s1 = *ro;
            absorb_alloc_points(ro, &b.comm_values);
            let ghost s2 = *ro;
            b.comm_ts.absorb_in_ro(ro);
            proof {
                assert(s1.valid(cs));
                assert(s2.valid(cs));
                assert forall|e: Valuation| #[trigger] ro.at(e) == old(ro).at(e) + absorbs(
                    tables_inputs(payloads_at(self.tables@, e).take(i as int + 1)),
                ) by {
                    let t = payloads_at(self.tables@, e).take(i as int + 1);
                    assert(t.drop_last() =~= payloads_at(self.tables@, e).take(i as int));
                    let v = b.at(e);
                    assert(s0.at(e) == old(ro).at(e) + absorbs(tables_inputs(t.drop_last())));
                    assert(s1.at(e) == s0.at(e) + absorbs(v.comm_L));
                    assert(s2.at(e) == s1.at(e) + absorbs(concat_all(v.comm_values)));
                    assert(ro.at(e) == s2.at(e) + absorbs(v.comm_ts));
                    assert(ro.at(e) =~= old(ro).at(e) + absorbs(tables_inputs(t)));
                }
            }
            i = i + 1;
        }
        proof {
            assert forall|e: Valuation| #[trigger] ro.at(e) == old(ro).at(e) + absorbs(
                tables_inputs(payloads_at(self.tables@, e)),
            ) by {
                assert(payloads_at(self.tables@, e).take(n as int) =~= payloads_at(
                    self.tables@,
                    e,
                ));
            }
        }
    }

    /// The challenge `rho`, and the oracle behind it.
    fn squeeze_rho(&self, cs: &mut ConstraintSystem<E::Scalar>) -> (r: (
        AllocatedNum<E::Scalar>,
        RO2Circuit<E>,
    ))
        requires
            old(cs).wf(),
            self.valid(*old(cs)),
        ensures
            old(cs).grows(*final(cs)),
            final(cs).valid(r.0),
            r.1.valid(*final(cs)),
            forall|e: Valuation| #[trigger]
                final(cs).admits(e) ==> r.0.at(e) == fold_rho::<E>(self.at(e)),
            forall|e: Valuation| #[trigger]
                r.1.at(e) == rho_log(self.at(e)).push(RoItem::Squeeze(NUM_CHALLENGE_BITS)),
            old(cs).records() ==> final(cs).satisfied() == old(cs).satisfied(),
            final(cs).layout() == lay_rho::<E>(old(cs).layout(), self.at(Valuation::Names)).0,
            r.0.at(Valuation::Names) == lay_rho::<E>(
                old(cs).layout(),
                self.at(Valuation::Names),
            ).1,
    {
        let mut ro = RO2Circuit::<E>::new();
        let ghost s0 = ro;
        ro.absorb(self.pp_digest);
        let ghost s1 = ro;
        self.U2.absorb_in_ro(&mut ro);
        let ghost s2 = ro;
        proof {
            assert(s0.valid(*cs));
            assert(s1.valid(*cs));
        }
        self.absorb_tables(&mut ro, Ghost(*cs));
        let ghost s3 = ro;
        let _tau = ro.squeeze(cs, NUM_CHALLENGE_BITS);
        let ghost s4 = ro;
        proof {
            self.lemma_valid_grows(*old(cs), *cs);
        }
        self.nifs.comm_E.absorb_in_ro(&mut ro);
        let ghost s5 = ro;
        let ghost c5 = *cs;
        let rho = ro.squeeze(cs, NUM_CHALLENGE_BITS);
        proof {
            let names = Valuation::Names;
            assert(s1.at(names) == s0.at(names).push(RoItem::Absorb(self.at(names).pp)));
            assert(s3.at(names) =~= tau_log(self.at(names)));
            assert forall|e: Valuation| #[trigger] s5.at(e) == rho_log(self.at(e)) by {
                let x = self.at(e);
                assert(s1.at(e) == s0.at(e).push(RoItem::Absorb(x.pp)));
                assert(s2.at(e) == s1.at(e) + absorbs(r1cs_inputs(x.U2)));
                assert(s3.at(e) == s2.at(e) + absorbs(tables_inputs(x.tables)));
                assert(s3.at(e) =~= tau_log(x));
                assert(s4.at(e) == s3.at(e).push(RoItem::Squeeze(NUM_CHALLENGE_BITS)));
                assert(s5.at(e) == s4.at(e) + absorbs(x.comm_E));
                assert(s5.at(e) =~= rho_log(x));
            }
            assert(s5.at(names) == rho_log(self.at(names)));
            assert forall|e: Valuation| #[trigger] cs.admits(e) implies rho.at(e) == fold_rho::<E>(
                self.at(e),
            ) by {
                assert(s5.at(e) == rho_log(self.at(e)));
            }
            assert forall|e: Valuation| #[trigger] ro.at(e) == rho_log(self.at(e)).push(
                RoItem::Squeeze(NUM_CHALLENGE_BITS),
            ) by {
                assert(s5.at(e) == rho_log(self.at(e)));
            }
        }
        (rho, ro)
    }

    /// Gives out the challenges of the tables, given the oracle behind `rho`.
    fn squeeze_columns(&self, cs: &mut ConstraintSystem<E::Scalar>, ro: &mut RO2Circuit<E>)
        requires
            old(cs).wf(),
            self.valid(*old(cs)),
            old(ro).valid(*old(cs)),
        ensures
            old(cs).grows(*final(cs)),
            final(ro).valid(*final(cs)),
            forall|e: Valuation| #[trigger]
                final(ro).at(e) == old(ro).at(e) + squeezes(
                    with_columns(payloads_at(self.tables@, e)),
                ) + squeezes(self.tables@.len()),
            old(cs).records() ==> final(cs).satisfied() == old(cs).satisfied(),
            final(cs).layout() == lay_columns::<E>(
                old(cs).layout(),
                old(ro).at(Valuation::Names),
                payloads_at(self.tables@, Valuation::Names),
            ),
    {
        let ghost before = *cs;
        let n: usize = self.tables.len();
        let mut i: usize = 0;
        proof {
            assert forall|e: Valuation| #[trigger] ro.at(e) == old(ro).at(e) + squeezes(
                with_columns(payloads_at(self.tables@, e).take(0)),
            ) by {
                assert(ro.at(e) =~= old(ro).at(e) + squeezes(
                    with_columns(payloads_at(self.tables@, e).take(0)),
                ));
            }
        }
        while i < n
            invariant
                i <= n,
                n == self.tables@.len(),
                before.wf(),
                before.grows(*cs),
                ro.valid(*cs),
                forall|e: Valuation| #[trigger]
                    ro.at(e) == old(ro).at(e) + squeezes(
                        with_columns(payloads_at(self.tables@, e).take(i as int)),
                    ),
                before.records() ==> cs.satisfied() == before.satisfied(),
                cs.layout() == lay_squeezes::<E>(
                    before.layout(),
                    old(ro).at(Valuation::Names),
                    with_columns(payloads_at(self.tables@, Valuation::Names).take(i as int)),
                ),
            decreases n - i,
        {
            let ghost s0 = *ro;
            let columns: usize = self.tables[i].comm_values.len();
            if columns > 0 {
                let _alpha = ro.squeeze(cs, NUM_CHALLENGE_BITS);
            }
            proof {
                let names = payloads_at(self.tables@, Valuation::Names);
                assert(names.take(i as int + 1).drop_last() =~= names.take(i as int));
                assert(names.take(i as int + 1).last().comm_values.len() == columns);
                assert(s0.at(Valuation::Names) == old(ro).at(Valuation::Names) + squeezes(
                    with_columns(names.take(i as int)),
                ));
                assert forall|e: Valuation| #[trigger] ro.at(e) == old(ro).at(e) + squeezes(
                    with_columns(payloads_at(self.tables@, e).take(i as int + 1)),
                ) by {
                    let t = payloads_at(self.tables@, e).take(i as int + 1);
                    assert(t.drop_last() =~= payloads_at(self.tables@, e).take(i as int));
                    assert(s0.at(e) == old(ro).at(e) + squeezes(with_columns(t.drop_last())));
                    assert(t.last().comm_values.len() == columns);
                    assert(ro.at(e) =~= old(ro).at(e) + squeezes(with_columns(t)));
                }
            }
            i = i + 1;
        }
        let ghost mid = *ro;
        let ghost c_mid = *cs;
        i = 0;
        proof {
            assert forall|e: Valuation| #[trigger] ro.at(e) == mid.at(e) + squeezes(0) by {
                assert(ro.at(e) =~= mid.at(e) + squeezes(0));
            }
        }
        while i < n
            invariant
                i <= n,
                before.wf(),
                before.grows(*cs),
                ro.valid(*cs),
                forall|e: Valuation| #[trigger] ro.at(e) == mid.at(e) + squeezes(i as nat),
                before.records() ==> cs.satisfied() == before.satisfied(),
                cs.layout() == lay_squeezes::<E>(
                    c_mid.layout(),
                    mid.at(Valuation::Names),
                    i as nat,
                ),
            decreases n - i,
        {
            let ghost s0 = *ro;
            let _r_logup = ro.squeeze(cs, NUM_CHALLENGE_BITS);
            proof {
                assert(s0.at(Valuation::Names) == mid.at(Valuation::Names) + squeezes(i as nat));
                assert forall|e: Valuation| #[trigger] ro.at(e) == mid.at(e) + squeezes(
                    (i + 1) as nat,
                ) by {
                    assert(s0.at(e) == mid.at(e) + squeezes(i as nat));
                    assert(ro.at(e) =~= mid.at(e) + squeezes((i + 1) as nat));
                }
            }
            i = i + 1;
        }
        proof {
            let names = payloads_at(self.tables@, Valuation::Names);
            assert(names.take(n as int) =~= names);
            assert(mid.at(Valuation::Names) == old(ro).at(Valuation::Names) + squeezes(
                with_columns(names),
            ));
            assert forall|e: Valuation| #[trigger] ro.at(e) == old(ro).at(e) + squeezes(
                with_columns(payloads_at(self.tables@, e)),
            ) + squeezes(self.tables@.len()) by {
                assert(payloads_at(self.tables@, e).take(n as int) =~= payloads_at(
                    self.tables@,
                    e,
                ));
                assert(mid.at(e) == old(ro).at(e) + squeezes(
                    with_columns(payloads_at(self.tables@, e).take(n as int)),
                ));
            }
        }
    }

    fn absorb_polys(&self, ro: &mut RO2Circuit<E>, Ghost(cs): Ghost<ConstraintSystem<E::Scalar>>)
        requires
            self.valid(cs),
            old(ro).valid(cs),
        ensures
            final(ro).valid(cs),
            forall|e: Valuation| #[trigger]
                final(ro).at(e) == old(ro).at(e) + absorbs(concat_all(polys_at(self.polys@, e))),
    {
        let n: usize = self.polys.len();
        let mut i: usize = 0;
        proof {
            assert forall|e: Valuation| #[trigger] ro.at(e) == old(ro).at(e) + absorbs(
                concat_all(polys_at(self.polys@, e).take(0)),
            ) by {
                assert(ro.at(e) =~= old(ro).at(e) + absorbs(
                    concat_all(polys_at(self.polys@, e).take(0)),
                ));
            }
        }
        while i < n
            invariant
                i <= n,
                n == self.polys@.len(),
                self.valid(cs),
                ro.valid(cs),
                forall|e: Valuation| #[trigger]
                    ro.at(e) == old(ro).at(e) + absorbs(
                        concat_all(polys_at(self.polys@, e).take(i as int)),
                    ),
            decreases n - i,
        {
            let ghost s0 = *ro;
            proof {
                assert(self.polys@[i as int].valid(cs));
            }
            absorb_nums(ro, &self.polys[i].coeffs);
            proof {
                assert forall|e: Valuation| #[trigger] ro.at(e) == old(ro).at(e) + absorbs(
                    concat_all(polys_at(self.polys@, e).take(i as int + 1)),
                ) by {
                    let t = polys_at(self.polys@, e).take(i as int + 1);
                    assert(t.drop_last() =~= polys_at(self.polys@, e).take(i as int));
                    assert(s0.at(e) == old(ro).at(e) + absorbs(concat_all(t.drop_last())));
                    assert(ro.at(e) =~= old(ro).at(e) + absorbs(concat_all(t)));
                }
            }
            i = i + 1;
        }
        proof {
            assert forall|e: Valuation| #[trigger] ro.at(e) == old(ro).at(e) + absorbs(
                concat_all(polys_at(self.polys@, e)),
            ) by {
                assert(polys_at(self.polys@, e).take(n as int) =~= polys_at(self.polys@, e));
            }
        }
    }

    /// The challenge `r_b`, given the oracle behind the challenges of the tables.
    fn squeeze_r_b(&self, cs: &mut ConstraintSystem<E::Scalar>, ro: &mut RO2Circuit<E>) -> (r:
        AllocatedNum<E::Scalar>)
        requires
            old(cs).wf(),
            self.valid(*old(cs)),
            old(ro).valid(*old(cs)),
            forall|e: Valuation| #[trigger] old(ro).at(e) == tables_log(self.at(e)),
        ensures
            old(cs).grows(*final(cs)),
            final(cs).valid(r),
            forall|e: Valuation| #[trigger]
                final(cs).admits(e) ==> r.at(e) == fold_r_b::<E>(self.at(e)),
            old(cs).records() ==> final(cs).satisfied() == old(cs).satisfied(),
            final(cs).layout() == lay_r_b::<E>(old(cs).layout(), self.at(Valuation::Names)).0,
            r.at(Valuation::Names) == lay_r_b::<E>(old(cs).layout(), self.at(Valuation::Names)).1,
    {
        let ghost s1 = *ro;
        absorb_alloc_points(ro, self.inv_w);
        let ghost s2 = *ro;
        absorb_alloc_points(ro, self.inv_t);
        let ghost s3 = *ro;
        absorb_nums(ro, &self.nifs.poly.coeffs);
        let ghost s4 = *ro;
        proof {
            assert(s2.valid(*cs));
            assert(s3.valid(*cs));
            assert(s4.valid(*cs));
        }
        self.absorb_polys(ro, Ghost(*cs));
        let ghost s5 = *ro;
        let r = ro.squeeze(cs, NUM_CHALLENGE_BITS);
        proof {
            let x = self.at(Valuation::Names);
            assert(s1.at(Valuation::Names) == tables_log(x));
            assert(s2.at(Valuation::Names) == s1.at(Valuation::Names) + absorbs(
                concat_all(x.inv_w),
            ));
            assert(s3.at(Valuation::Names) == s2.at(Valuation::Names) + absorbs(
                concat_all(x.inv_t),
            ));
            assert(s5.at(Valuation::Names) =~= r_b_log(x));
            assert forall|e: Valuation| #[trigger] cs.admits(e) implies r.at(e) == fold_r_b::<E>(
                self.at(e),
            ) by {
                let x = self.at(e);
                assert(s1.at(e) == tables_log(x));
                assert(s2.at(e) == s1.at(e) + absorbs(concat_all(x.inv_w)));
                assert(s3.at(e) == s2.at(e) + absorbs(concat_all(x.inv_t)));
                assert(s4.at(e) == s3.at(e) + absorbs(x.poly));
                assert(s5.at(e) == s4.at(e) + absorbs(concat_all(x.polys)));
                assert(s5.at(e) =~= r_b_log(x));
            }
        }
        r
    }

    /// Demands that the round polynomials meet the claims.
    fn check_claims(&self, cs: &mut ConstraintSystem<E::Scalar>, rho: &AllocatedNum<E::Scalar>)
        requires
            old(cs).wf(),
            self.valid(*old(cs)),
            old(cs).valid(*rho),
            forall|e: Valuation| #[trigger]
                old(cs).admits(e) ==> rho.at(e) == fold_rho::<E>(self.at(e)),
        ensures
            old(cs).grows(*final(cs)),
            forall|w: spec_fn(Variable) -> int| #[trigger]
                final(cs).met_by(w) ==> fold_checks::<E>(self.at(Valuation::Assigned(w))),
            old(cs).records() ==> (final(cs).satisfied() <==> old(cs).satisfied() && fold_checks::<
                E,
            >(self.at(Valuation::Recorded))),
            final(cs).layout() == lay_checks::<E>(
                old(cs).layout(),
                self.at(Valuation::Names),
                rho.at(Valuation::Names),
            ),
    {
        let ghost p = E::Scalar::modulus();
        let ghost before = *cs;
        let one = ConstraintSystem::one();
        let a = LinearCombination::of(&self.U1.T);
        let b = LinearCombination::diff(&one, rho);
        let claim = product(cs, a, b);
        let ghost c1 = *cs;
        proof {
            E::Scalar::lemma_modulus();
            assert forall|e: Valuation| #[trigger] c1.admits(e) implies claim.at(e) == (self.at(
                e,
            ).U1.T * (1 - fold_rho::<E>(self.at(e)))) % p by {
                assert(before.admits(e));
                assert(one.at(e) == 1);
                assert(a.at(e) == self.U1.T.at(e));
                assert(b.at(e) == (1 - rho.at(e)) % p);
                lemma_residue(p, 1 - rho.at(e));
                lemma_cong_mul(p, a.at(e), b.at(e), a.at(e), 1 - rho.at(e));
            }
        }
        self.nifs.poly.check_poly_zero_poly_one_with(cs, &claim);
        let ghost c2 = *cs;
        let n: usize = self.polys.len();
        let mut i: usize = 0;
        while i < n
            invariant
                i <= n,
                n == self.polys@.len(),
                p == E::Scalar::modulus(),
                before.wf(),
                self.valid(before),
                c2.wf(),
                before.grows(c2),
                before.grows(*cs),
                c2.grows(*cs),
                forall|w: spec_fn(Variable) -> int, j: int| #[trigger]
                    cs.met_by(w) && 0 <= j < i ==> claim_met(
                        p,
                        (#[trigger] self.polys@[j]).at(Valuation::Assigned(w)),
                        self.running@[j].at(Valuation::Assigned(w)),
                    ),
                before.records() ==> (cs.satisfied() <==> c2.satisfied() && forall|j: int|
                    0 <= j < i ==> claim_met(
                        p,
                        (#[trigger] self.polys@[j]).at(Valuation::Recorded),
                        self.running@[j].at(Valuation::Recorded),
                    )),
                cs.layout() == lay_claims(
                    c2.layout(),
                    polys_at(self.polys@, Valuation::Names),
                    nums_at(self.running@, Valuation::Names),
                    i as nat,
                ),
            decreases n - i,
        {
            let ghost s0 = *cs;
            proof {
                self.lemma_valid_grows(before, *cs);
                assert(self.polys@[i as int].valid(*cs));
                assert(cs.valid(self.running@[i as int]));
            }
            self.polys[i].check_poly_zero_poly_one_with(cs, &self.running[i]);
            proof {
                assert forall|w: spec_fn(Variable) -> int, j: int| #[trigger]
                    cs.met_by(w) && 0 <= j < i + 1 implies claim_met(
                    p,
                    (#[trigger] self.polys@[j]).at(Valuation::Assigned(w)),
                    self.running@[j].at(Valuation::Assigned(w)),
                ) by {
                    assert(s0.met_by(w));
                }
                if before.records() {
                    if cs.satisfied() {
                        assert forall|j: int| 0 <= j < i + 1 implies claim_met(
                            p,
                            (#[trigger] self.polys@[j]).at(Valuation::Recorded),
                            self.running@[j].at(Valuation::Recorded),
                        ) by {}
                    }
                    if c2.satisfied() && forall|j: int|
                        0 <= j < i + 1 ==> claim_met(
                            p,
                            (#[trigger] self.polys@[j]).at(Valuation::Recorded),
                            self.running@[j].at(Valuation::Recorded),
                        ) {
                        assert(claim_met(
                            p,
                            self.polys@[i as int].at(Valuation::Recorded),
                            self.running@[i as int].at(Valuation::Recorded),
                        ));
                    }
                }
            }
            i = i + 1;
        }
        proof {
            assert forall|w: spec_fn(Variable) -> int| #[trigger] cs.met_by(w) implies fold_checks::<
                E,
            >(self.at(Valuation::Assigned(w))) by {
                let e = Valuation::Assigned(w);
                let x = self.at(e);
                assert(cs.admits(e));
                assert(c2.admits(e));
                assert(c2.met_by(w));
                assert(c1.met_by(w));
                assert(c1.admits(e));
                assert forall|j: int| 0 <= j < x.polys.len() implies claim_met(
                    p,
                    #[trigger] x.polys[j],
                    x.running[j],
                ) by {
                    assert(claim_met(p, self.polys@[j].at(e), self.running@[j].at(e)));
                }
            }
            if before.records() {
                let e = Valuation::Recorded;
                let x = self.at(e);
                assert(c1.admits(e));
                if cs.satisfied() {
                    assert forall|j: int| 0 <= j < x.polys.len() implies claim_met(
                        p,
                        #[trigger] x.polys[j],
                        x.running[j],
                    ) by {
                        assert(claim_met(p, self.polys@[j].at(e), self.running@[j].at(e)));
                    }
                }
                if before.satisfied() && fold_checks::<E>(x) {
                    assert forall|j: int| 0 <= j < n implies claim_met(
                        p,
                        (#[trigger] self.polys@[j]).at(e),
                        self.running@[j].at(e),
                    ) by {
                        assert(claim_met(p, x.polys[j], x.running[j]));
                    }
                }
            }
        }
    }

    /// The oracle behind the challenges of the tables.
    proof fn lemma_tables_log(self, before: RO2Circuit<E>, ro: RO2Circuit<E>)
        requires
            forall|e: Valuation| #[trigger]
                before.at(e) == rho_log(self.at(e)).push(RoItem::Squeeze(NUM_CHALLENGE_BITS)),
            forall|e: Valuation| #[trigger]
                ro.at(e) == before.at(e) + squeezes(with_columns(payloads_at(self.tables@, e)))
                    + squeezes(self.tables@.len()),
        ensures
            forall|e: Valuation| #[trigger] ro.at(e) == tables_log(self.at(e)),
    {
        assert forall|e: Valuation| #[trigger] ro.at(e) == tables_log(self.at(e)) by {
            assert(before.at(e) == rho_log(self.at(e)).push(RoItem::Squeeze(NUM_CHALLENGE_BITS)));
            assert(self.at(e).tables.len() == self.tables@.len());
        }
    }

    /// Whether the equality polynomial vanishes at the recorded challenges.
    fn eq_vanishes(&self, cs: &mut ConstraintSystem<E::Scalar>) -> (r: bool)
        requires
            old(cs).wf(),
            old(cs).records(),
            self.valid(*old(cs)),
        ensures
            r == (fold_eq::<E>(self.at(Valuation::Recorded)) == 0),
    {
        let (rho, mut ro) = self.squeeze_rho(cs);
        let ghost c1 = *cs;
        proof {
            self.lemma_valid_grows(*old(cs), c1);
        }
        let ghost ro1 = ro;
        self.squeeze_columns(cs, &mut ro);
        let ghost c_tables = *cs;
        proof {
            self.lemma_valid_grows(*old(cs), c_tables);
            self.lemma_tables_log(ro1, ro);
        }
        let r_b = self.squeeze_r_b(cs, &mut ro);
        let ghost c2 = *cs;
        let eq = alloc_eq(cs, &rho, &r_b);
        let value = eq.value_or_zero(cs);
        let zero = E::Scalar::zero();
        proof {
            assert(c1.admits(Valuation::Recorded));
            assert(c_tables.admits(Valuation::Recorded));
            assert(c2.admits(Valuation::Recorded));
            assert(cs.admits(Valuation::Recorded));
        }
        value.same(zero)
    }

    /// Verifies the fold.
    fn verify(
        &self,
        cs: &mut ConstraintSystem<E::Scalar>,
        comm_W_fold: &AllocatedNonnativePoint<E>,
        comm_E_fold: &AllocatedNonnativePoint<E>,
    ) -> (r: Result<
        (AllocatedFoldedInstance<E>, Vec<AllocatedNum<E::Scalar>>),
        SynthesisError,
    >)
        requires
            old(cs).wf(),
            self.valid(*old(cs)),
            comm_W_fold.valid(*old(cs)),
            comm_E_fold.valid(*old(cs)),
            old(cs).records() ==> fold_eq::<E>(self.at(Valuation::Recorded)) != 0,
        ensures
            old(cs).grows(*final(cs)),
            r is Ok <==> self.U1.X@.len() == 1,
            r is Err ==> refused_for(r, FOLD_ARITY@),
            forall|w: spec_fn(Variable) -> int| #[trigger]
                final(cs).met_by(w) ==> fold_checks::<E>(self.at(Valuation::Assigned(w))),
            old(cs).records() ==> (final(cs).satisfied() <==> old(cs).satisfied() && fold_checks::<
                E,
            >(self.at(Valuation::Recorded))),
            r is Ok ==> {
                &&& r->Ok_0.0.valid(*final(cs))
                &&& r->Ok_0.0.shape() == self.U1.shape()
                &&& nums_valid(*final(cs), r->Ok_0.1@)
                &&& r->Ok_0.1@.len() == self.tables@.len()
                &&& forall|e: Valuation| #[trigger]
                    final(cs).admits(e) ==> folds_to::<E>(
                        self.at(e),
                        comm_W_fold.at(e),
                        comm_E_fold.at(e),
                        r->Ok_0.0.at(e),
                        nums_at(r->Ok_0.1@, e),
                    )
                &&& (
                    final(cs).layout(),
                    r->Ok_0.0.at(Valuation::Names),
                    nums_at(r->Ok_0.1@, Valuation::Names),
                ) == lay_verify::<E>(
                    old(cs).layout(),
                    self.at(Valuation::Names),
                    comm_W_fold.at(Valuation::Names),
                    comm_E_fold.at(Valuation::Names),
                )
            },
    {
        let ghost p = E::Scalar::modulus();
        let ghost before = *cs;
        let (rho, mut ro) = self.squeeze_rho(cs);
        let ghost c1 = *cs;
        proof {
            self.lemma_valid_grows(before, c1);
        }
        let ghost ro1 = ro;
        self.squeeze_columns(cs, &mut ro);
        let ghost c_tables = *cs;
        proof {
            self.lemma_valid_grows(before, c_tables);
            self.lemma_tables_log(ro1, ro);
            assert(ro1.at(Valuation::Names) == rho_log(self.at(Valuation::Names)).push(
                RoItem::Squeeze(NUM_CHALLENGE_BITS),
            ));
            assert forall|e: Valuation| #[trigger] c_tables.admits(e) implies rho.at(e)
                == fold_rho::<E>(self.at(e)) by {
                assert(c1.admits(e));
            }
        }
        self.check_claims(cs, &rho);
        let ghost c2 = *cs;
        proof {
            self.lemma_valid_grows(before, c2);
            ro.lemma_valid_grows(c_tables, c2);
        }
        let r_b = self.squeeze_r_b(cs, &mut ro);
        let ghost c3 = *cs;
        let eq = alloc_eq(cs, &rho, &r_b);
        let ghost c4 = *cs;
        proof {
            self.lemma_valid_grows(before, c4);
            assert forall|e: Valuation| #[trigger] c4.admits(e) implies rho.at(e) == fold_rho::<E>(
                self.at(e),
            ) && r_b.at(e) == fold_r_b::<E>(self.at(e)) && eq.at(e) == fold_eq::<E>(self.at(e)) by {
                assert(c3.admits(e));
                assert(c2.admits(e));
                assert(c_tables.admits(e));
            }
            if before.records() {
                assert(c4.admits(Valuation::Recorded));
            }
        }
        let T_out = carry_claim(cs, &self.nifs.poly, &eq, &r_b);
        let ghost c5 = *cs;
        let n: usize = self.polys.len();
        let mut t_outs: Vec<AllocatedNum<E::Scalar>> = Vec::new();
        let mut i: usize = 0;
        assert(nums_at(t_outs@, Valuation::Names) =~= Seq::<int>::empty());
        while i < n
            invariant
                i <= n,
                n == self.polys@.len(),
                p == E::Scalar::modulus(),
                before.wf(),
                self.valid(before),
                before.grows(c5),
                before.grows(c4),
                c4.grows(c5),
                c5.wf(),
                c5.grows(*cs),
                before.grows(*cs),
                c4.grows(*cs),
                c4.valid(eq),
                c4.valid(r_b),
                before.records() ==> eq.at(Valuation::Recorded) != 0,
                t_outs@.len() == i,
                nums_valid(*cs, t_outs@),
                forall|e: Valuation, j: int| #[trigger]
                    cs.admits(e) && 0 <= j < i ==> claim_carried(
                        p,
                        self.polys@[j].at(e),
                        eq.at(e),
                        r_b.at(e),
                        (#[trigger] t_outs@[j]).at(e),
                    ),
                before.records() ==> cs.satisfied() == c5.satisfied(),
                (cs.layout(), nums_at(t_outs@, Valuation::Names)) == lay_carries(
                    p,
                    c5.layout(),
                    polys_at(self.polys@, Valuation::Names),
                    eq.at(Valuation::Names),
                    r_b.at(Valuation::Names),
                    i as nat,
                ),
            decreases n - i,
        {
            let ghost s0 = *cs;
            proof {
                self.lemma_valid_grows(before, *cs);
                assert(self.polys@[i as int].valid(*cs));
            }
            let t = carry_claim(cs, &self.polys[i], &eq, &r_b);
            let ghost outs = t_outs@;
            t_outs.push(t);
            assert(nums_at(t_outs@, Valuation::Names) =~= nums_at(outs, Valuation::Names).push(
                t.at(Valuation::Names),
            ));
            i = i + 1;
        }
        let ghost c6 = *cs;
        proof {
            self.lemma_valid_grows(before, c6);
        }
        let folded = self.U1.fold(cs, self.U2, &r_b, &T_out, comm_W_fold, comm_E_fold);
        proof {
            assert forall|w: spec_fn(Variable) -> int| #[trigger] cs.met_by(w) implies fold_checks::<
                E,
            >(self.at(Valuation::Assigned(w))) by {
                let e = Valuation::Assigned(w);
                assert(cs.admits(e));
                assert(c6.admits(e));
                assert(c5.admits(e));
                assert(c4.admits(e));
                assert(c3.admits(e));
                assert(c2.admits(e));
                assert(c2.met_by(w));
            }
        }
        match folded {
            Ok(u) => {
                proof {
                    reveal(lay_verify);
                    assert forall|e: Valuation| #[trigger] cs.admits(e) implies folds_to::<E>(
                        self.at(e),
                        comm_W_fold.at(e),
                        comm_E_fold.at(e),
                        u.at(e),
                        nums_at(t_outs@, e),
                    ) by {
                        assert(c6.admits(e));
                        assert(c5.admits(e));
                        assert(c4.admits(e));
                        let x = self.at(e);
                        let ts = nums_at(t_outs@, e);
                        assert forall|j: int| 0 <= j < x.polys.len() implies claim_carried(
                            p,
                            x.polys[j],
                            fold_eq::<E>(x),
                            fold_r_b::<E>(x),
                            #[trigger] ts[j],
                        ) && 0 <= ts[j] < p by {
                            assert(claim_carried(
                                p,
                                self.polys@[j].at(e),
                                eq.at(e),
                                r_b.at(e),
                                t_outs@[j].at(e),
                            ));
                            lemma_at_range(t_outs@[j], e);
                        }
                        lemma_at_range(u.T, e);
                    }
                }
                Ok((u, t_outs))
            },
            Err(e) => Err(e),
        }
    }
}

/// What a system becomes with the first challenge of a fold, and the name of the challenge.
pub open spec fn lay_rho<E: Engine>(l: Layout, x: FoldInput) -> (Layout, int) {
    let l1 = E::squeeze_layout(l, tau_log(x), NUM_CHALLENGE_BITS);
    (
        E::squeeze_layout(l1, rho_log(x), NUM_CHALLENGE_BITS),
        E::squeeze_name(l1, rho_log(x), NUM_CHALLENGE_BITS),
    )
}

/// What a system becomes with `n` challenges in a row.
pub open spec fn lay_squeezes<E: Engine>(l: Layout, log: Seq<RoItem<int>>, n: nat) -> Layout
    decreases n,
{
    if n == 0 {
        l
    } else {
        E::squeeze_layout(
            lay_squeezes::<E>(l, log, (n - 1) as nat),
            log + squeezes((n - 1) as nat),
            NUM_CHALLENGE_BITS,
        )
    }
}

/// What a system becomes with the challenges of the tables: those that combine columns, and those
/// that are added to entries.
pub open spec fn lay_columns<E: Engine>(
    l: Layout,
    log: Seq<RoItem<int>>,
    tables: Seq<TableVal>,
) -> Layout {
    let n = with_columns(tables);
    lay_squeezes::<E>(lay_squeezes::<E>(l, log, n), log + squeezes(n), tables.len())
}

/// What a system becomes with the last challenge of a fold, and the name of the challenge.
pub open spec fn lay_r_b<E: Engine>(l: Layout, x: FoldInput) -> (Layout, int) {
    (
        E::squeeze_layout(l, r_b_log(x), NUM_CHALLENGE_BITS),
        E::squeeze_name(l, r_b_log(x), NUM_CHALLENGE_BITS),
    )
}

/// What a system becomes when the first `n` round polynomials are bound to their claims.
pub open spec fn lay_claims(l: Layout, polys: Seq<Seq<int>>, running: Seq<int>, n: nat) -> Layout
    decreases n,
{
    if n == 0 {
        l
    } else {
        lay_claim_met(lay_claims(l, polys, running, (n - 1) as nat), polys[n - 1], running[n - 1])
    }
}

/// What a system becomes when the round polynomials of a fold are bound to their claims.
pub open spec fn lay_checks<E: Engine>(l: Layout, x: FoldInput, rho: int) -> Layout {
    let l1 = lay_product(l, once(x.U1.T), less(E::Scalar::modulus(), unit(), rho));
    let l2 = lay_claim_met(l1, x.poly, l.aux as int);
    lay_claims(l2, x.polys, x.running, x.polys.len())
}

/// What a system becomes when the first `n` claims are carried over, and their names.
pub open spec fn lay_carries(
    p: int,
    l: Layout,
    polys: Seq<Seq<int>>,
    eq: int,
    r_b: int,
    n: nat,
) -> (Layout, Seq<int>)
    decreases n,
{
    if n == 0 {
        (l, Seq::empty())
    } else {
        let (l0, names) = lay_carries(p, l, polys, eq, r_b, (n - 1) as nat);
        (
            lay_carry(p, l0, polys[n - 1], eq, r_b),
            names.push(carried_name(p, l0, polys[n - 1], r_b)),
        )
    }
}

/// What a system becomes when a fold is verified in it, with the names of the folded instance and
/// of the claims that are carried over. It is a function of where the numbers of the fold stand.
#[verifier::opaque]
pub open spec fn lay_verify<E: Engine>(
    l: Layout,
    x: FoldInput,
    comm_w: Seq<int>,
    comm_e: Seq<int>,
) -> (Layout, FoldedVal, Seq<int>) {
    let p = E::Scalar::modulus();
    let (l1, rho) = lay_rho::<E>(l, x);
    let log = rho_log(x).push(RoItem::Squeeze(NUM_CHALLENGE_BITS));
    let l2 = lay_checks::<E>(lay_columns::<E>(l1, log, x.tables), x, rho);
    let (l3, r_b) = lay_r_b::<E>(l2, x);
    let l4 = lay_eq(p, l3, rho, r_b);
    let eq = l3.aux + 1int;
    let l5 = lay_carry(p, l4, x.poly, eq, r_b);
    let (l6, t_outs) = lay_carries(p, l5, x.polys, eq, r_b, x.polys.len());
    (
        lay_fold(p, l6, x.U1, x.U2.X, r_b),
        fold_names(l6, x.U1, carried_name(p, l4, x.poly, r_b), comm_w, comm_e),
        t_outs,
    )
}

/// The input of a fold without lookups.
pub open spec fn plain_input<E: Engine>(
    nifs: AllocatedNIFS<E>,
    pp_digest: AllocatedNum<E::Scalar>,
    U1: AllocatedFoldedInstance<E>,
    U2: AllocatedNonnativeR1CSInstance<E>,
    e: Valuation,
) -> FoldInput {
    FoldInput {
        pp: pp_digest.at(e),
        U1: U1.at(e),
        U2: U2.at(e),
        comm_E: nifs.comm_E.at(e),
        poly: nifs.poly.at(e),
        tables: Seq::empty(),
        polys: Seq::empty(),
        inv_w: Seq::empty(),
        inv_t: Seq::empty(),
        running: Seq::empty(),
    }
}

/// The input of a fold with lookups in one table.
pub open spec fn lookup_input<E: Engine>(
    plain: FoldInput,
    lookup: AllocatedLookupNIFS<E>,
    table: TableVal,
    running: int,
    e: Valuation,
) -> FoldInput {
    FoldInput {
        tables: seq![table],
        polys: seq![lookup.poly_lookup.at(e)],
        inv_w: seq![lookup.comm_inv_w.at(e)],
        inv_t: seq![lookup.comm_inv_t.at(e)],
        running: seq![running],
        ..plain
    }
}

/// The input of a fold with lookups in several tables.
pub open spec fn multi_table_input<E: Engine>(
    plain: FoldInput,
    lookups: AllocatedLookupNIFSMultiTable<E>,
    tables: Seq<TableVal>,
    running: Seq<int>,
    e: Valuation,
) -> FoldInput {
    FoldInput {
        tables,
        polys: polys_at(lookups.poly_lookup@, e),
        inv_w: points_at(lookups.comm_inv_w@, e),
        inv_t: points_at(lookups.comm_inv_t@, e),
        running,
        ..plain
    }
}

/// A table of commitments under a valuation.
pub open spec fn table_at<E: Engine>(
    comm_L: AllocatedNonnativePoint<E>,
    comm_values: Seq<AllocatedNonnativePoint<E>>,
    comm_ts: AllocatedNonnativePoint<E>,
    e: Valuation,
) -> TableVal {
    TableVal {
        comm_L: comm_L.at(e),
        comm_values: points_at(comm_values, e),
        comm_ts: comm_ts.at(e),
    }
}

/// A table without value columns is verified as a plain lookup: the input is the same, so that
/// the oracle sees the same and the fold yields the same; no challenge is drawn for columns; and
/// a system gets the same variables and the same constraints.
pub proof fn law_no_columns_like_plain_lookup<E: Engine>(
    plain: FoldInput,
    lookup: AllocatedLookupNIFS<E>,
    comm_L: AllocatedNonnativePoint<E>,
    comm_values: Seq<AllocatedNonnativePoint<E>>,
    comm_ts: AllocatedNonnativePoint<E>,
    running: int,
    e: Valuation,
    l: Layout,
    comm_w: Seq<int>,
    comm_e: Seq<int>,
)
    requires
        comm_values.len() == 0,
    ensures
        lookup_input(plain, lookup, table_at(comm_L, comm_values, comm_ts, e), running, e)
            == lookup_input(plain, lookup, table_at(comm_L, Seq::empty(), comm_ts, e), running, e),
        with_columns(seq![table_at(comm_L, comm_values, comm_ts, e)]) == 0,
        lay_verify::<E>(
            l,
            lookup_input(plain, lookup, table_at(comm_L, comm_values, comm_ts, e), running, e),
            comm_w,
            comm_e,
        ) == lay_verify::<E>(
            l,
            lookup_input(plain, lookup, table_at(comm_L, Seq::empty(), comm_ts, e), running, e),
            comm_w,
            comm_e,
        ),
{
    assert(comm_values =~= Seq::empty());
    let t = table_at(comm_L, comm_values, comm_ts, e);
    assert(seq![t].drop_last() =~= Seq::empty());
    reveal_with_fuel(with_columns, 2);
}

/// A single table among several tables is verified as a table on its own.
pub proof fn law_single_table_like_one<E: Engine>(
    plain: FoldInput,
    lookups: AllocatedLookupNIFSMultiTable<E>,
    lookup: AllocatedLookupNIFS<E>,
    table: TableVal,
    running: int,
    e: Valuation,
)
    requires
        lookups.poly_lookup@ == seq![lookup.poly_lookup],
        lookups.comm_inv_w@ == seq![lookup.comm_inv_w],
        lookups.comm_inv_t@ == seq![lookup.comm_inv_t],
    ensures
        multi_table_input(plain, lookups, seq![table], seq![running], e) == lookup_input(
            plain,
            lookup,
            table,
            running,
            e,
        ),
{
    let x = multi_table_input(plain, lookups, seq![table], seq![running], e);
    let y = lookup_input(plain, lookup, table, running, e);
    assert(x.polys =~= y.polys);
    assert(x.inv_w =~= y.inv_w);
    assert(x.inv_t =~= y.inv_t);
}

/// A message, the payloads and the running claims speak of the same number of tables.
pub open spec fn counted_alike<E: Engine>(
    lookups: AllocatedLookupNIFSMultiTable<E>,
    payloads: nat,
    running: nat,
) -> bool {
    let k = lookups.poly_lookup@.len();
    payloads == k && running == k && lookups.comm_inv_w@.len() == k && lookups.comm_inv_t@.len()
        == k
}

/// What a fold with lookups in one table yields.
pub struct LookupVerifyOutput<E: Engine> {
    pub U_fold: AllocatedFoldedInstance<E>,
    pub T_lookup_out: AllocatedNum<E::Scalar>,
}

/// What a fold with lookups in several tables yields: the folded instance, the carried claims,
/// and the folded commitments that the prover offers.
pub struct LookupVerifyOutputMultiTable<E: Engine> {
    pub U_fold: AllocatedFoldedInstance<E>,
    pub T_lookup_out_per_table: Vec<AllocatedNum<E::Scalar>>,
    pub comm_L_fold_per_table: Vec<AllocatedNonnativePoint<E>>,
    pub comm_ts_fold_per_table: Vec<AllocatedNonnativePoint<E>>,
}

/// Says that the tables of a fold are not counted alike.
pub open spec fn count_mismatch(
    k: nat,
    public_bundles: nat,
    t_lookup_running: nat,
    comm_inv_w: nat,
    comm_inv_t: nat,
) -> Seq<char> {
    "verify_with_multi_table_lookup: per-table count mismatch (k="@ + decimal(k)
        + ", public_bundles="@ + decimal(public_bundles) + ", t_lookup_running="@ + decimal(
        t_lookup_running,
    ) + ", comm_inv_w="@ + decimal(comm_inv_w) + ", comm_inv_t="@ + decimal(comm_inv_t) + ")"@
}

fn write_count_mismatch(
    k: usize,
    public_bundles: usize,
    t_lookup_running: usize,
    comm_inv_w: usize,
    comm_inv_t: usize,
) -> (r: String)
    ensures
        r@ == count_mismatch(
            k as nat,
            public_bundles as nat,
            t_lookup_running as nat,
            comm_inv_w as nat,
            comm_inv_t as nat,
        ),
{
    let mut s = "verify_with_multi_table_lookup: per-table count mismatch (k=".to_owned();
    append_number(&mut s, k);
    s.append(", public_bundles=");
    append_number(&mut s, public_bundles);
    s.append(", t_lookup_running=");
    append_number(&mut s, t_lookup_running);
    s.append(", comm_inv_w=");
    append_number(&mut s, comm_inv_w);
    s.append(", comm_inv_t=");
    append_number(&mut s, comm_inv_t);
    s.append(")");
    s
}

impl<E: Engine> AllocatedNIFS<E> {
    /// The numbers of the message belong to the system.
    pub open spec fn valid(self, cs: ConstraintSystem<E::Scalar>) -> bool {
        &&& self.comm_E.valid(cs)
        &&& self.poly.valid(cs)
        &&& self.poly.coeffs@.len() > 0
    }

    /// Adds a message with a round polynomial of the given degree.
    pub fn allocate(
        cs: &mut ConstraintSystem<E::Scalar>,
        nifs: Option<&NIFS<E>>,
        degree: usize,
    ) -> (r: Result<Self, SynthesisError>)
        requires
            old(cs).wf(),
            degree < usize::MAX,
            nifs is Some ==> nifs->Some_0.poly@.len() <= degree + 1,
        ensures
            r is Ok,
            old(cs).grows(*final(cs)),
            r->Ok_0.valid(*final(cs)),
            r->Ok_0.poly.coeffs@.len() == degree + 1,
            forall|e: Valuation| #[trigger] final(cs).admits(e) == old(cs).admits(e),
            final(cs).satisfied() == old(cs).satisfied(),
            old(cs).records() ==> {
                &&& r->Ok_0.comm_E.at(Valuation::Recorded) == (match nifs {
                    Some(n) => E::GE::coordinates(n.comm_E.log()),
                    None => identity_coordinates(),
                })
                &&& r->Ok_0.poly.at(Valuation::Recorded) == padded_poly(
                    match nifs {
                        Some(n) => n.poly@,
                        None => Seq::empty(),
                    },
                    (degree + 1) as nat,
                )
            },
            final(cs).layout() == old(cs).layout().more((POINT_LIMBS + degree + 1) as nat),
            r->Ok_0.comm_E.at(Valuation::Names) == fresh(
                old(cs).layout().aux,
                POINT_LIMBS as nat,
            ),
            r->Ok_0.poly.at(Valuation::Names) == fresh(
                old(cs).layout().aux + POINT_LIMBS as nat,
                (degree + 1) as nat,
            ),
    {
        let (comm, q) = match nifs {
            Some(n) => (Some(&n.comm_E), Some(&n.poly)),
            None => (None, None),
        };
        let comm_E = AllocatedNonnativePoint::allocate(cs, comm);
        let poly = AllocatedUniPoly::allocate(cs, degree, q);
        Ok(AllocatedNIFS { comm_E, poly })
    }

    /// Verifies a fold without lookups. The equality polynomial must not vanish at the recorded
    /// challenges.
    pub fn verify(
        &self,
        cs: &mut ConstraintSystem<E::Scalar>,
        pp_digest: &AllocatedNum<E::Scalar>,
        U1: &AllocatedFoldedInstance<E>,
        U2: &AllocatedNonnativeR1CSInstance<E>,
        comm_W_fold: &AllocatedNonnativePoint<E>,
        comm_E_fold: &AllocatedNonnativePoint<E>,
    ) -> (r: Result<AllocatedFoldedInstance<E>, SynthesisError>)
        requires
            old(cs).wf(),
            self.valid(*old(cs)),
            old(cs).valid(*pp_digest),
            U1.valid(*old(cs)),
            U2.valid(*old(cs)),
            comm_W_fold.valid(*old(cs)),
            comm_E_fold.valid(*old(cs)),
            old(cs).records() ==> fold_eq::<E>(
                plain_input(*self, *pp_digest, *U1, *U2, Valuation::Recorded),
            ) != 0,
        ensures
            old(cs).grows(*final(cs)),
            r is Ok <==> U1.X@.len() == 1,
            r is Err ==> refused_for(r, FOLD_ARITY@),
            forall|w: spec_fn(Variable) -> int| #[trigger]
                final(cs).met_by(w) ==> fold_checks::<E>(
                    plain_input(*self, *pp_digest, *U1, *U2, Valuation::Assigned(w)),
                ),
            old(cs).records() ==> (final(cs).satisfied() <==> old(cs).satisfied() && fold_checks::<
                E,
            >(plain_input(*self, *pp_digest, *U1, *U2, Valuation::Recorded))),
            r is Ok ==> {
                &&& r->Ok_0.valid(*final(cs))
                &&& r->Ok_0.shape() == U1.shape()
                &&& forall|e: Valuation| #[trigger]
                    final(cs).admits(e) ==> folds_to::<E>(
                        plain_input(*self, *pp_digest, *U1, *U2, e),
                        comm_W_fold.at(e),
                        comm_E_fold.at(e),
                        r->Ok_0.at(e),
                        Seq::empty(),
                    )
                &&& (final(cs).layout(), r->Ok_0.at(Valuation::Names), Seq::<int>::empty())
                    == lay_verify::<E>(
                    old(cs).layout(),
                    plain_input(*self, *pp_digest, *U1, *U2, Valuation::Names),
                    comm_W_fold.at(Valuation::Names),
                    comm_E_fold.at(Valuation::Names),
                )
            },
    {
        let tables: Vec<AllocatedLookupPayloadPublicMultiTable<E>> = Vec::new();
        let polys: Vec<AllocatedUniPoly<E::Scalar>> = Vec::new();
        let points: Vec<AllocatedNonnativePoint<E>> = Vec::new();
        let running: Vec<AllocatedNum<E::Scalar>> = Vec::new();
        let args = FoldArgs {
            pp_digest,
            U1,
            U2,
            nifs: self,
            tables: &tables,
            polys: &polys,
            inv_w: &points,
            inv_t: &points,
            running: &running,
        };
        proof {
            assert forall|e: Valuation| #[trigger] args.at(e) == plain_input(
                *self,
                *pp_digest,
                *U1,
                *U2,
                e,
            ) by {
                let x = args.at(e);
                assert(x.tables =~= Seq::empty());
                assert(x.polys =~= Seq::empty());
                assert(x.inv_w =~= Seq::empty());
                assert(x.inv_t =~= Seq::empty());
                assert(x.running =~= Seq::empty());
            }
        }
        let r = args.verify(cs, comm_W_fold, comm_E_fold);
        match r {
            Ok((u, ts)) => {
                proof {
                    assert(args.at(Valuation::Names) == plain_input(
                        *self,
                        *pp_digest,
                        *U1,
                        *U2,
                        Valuation::Names,
                    ));
                    assert(nums_at(ts@, Valuation::Names) =~= Seq::<int>::empty());
                    assert forall|e: Valuation| #[trigger] cs.admits(e) implies folds_to::<E>(
                        plain_input(*self, *pp_digest, *U1, *U2, e),
                        comm_W_fold.at(e),
                        comm_E_fold.at(e),
                        u.at(e),
                        Seq::empty(),
                    ) by {
                        assert(args.at(e) == plain_input(*self, *pp_digest, *U1, *U2, e));
                        assert(nums_at(ts@, e) =~= Seq::empty());
                    }
                }
                Ok(u)
            },
            Err(e) => Err(e),
        }
    }

    /// Whether the equality polynomial vanishes at the recorded challenges of a fold without
    /// lookups.
    pub fn eq_vanishes(
        &self,
        cs: &mut ConstraintSystem<E::Scalar>,
        pp_digest: &AllocatedNum<E::Scalar>,
        U1: &AllocatedFoldedInstance<E>,
        U2: &AllocatedNonnativeR1CSInstance<E>,
    ) -> (r: bool)
        requires
            old(cs).wf(),
            old(cs).records(),
            self.valid(*old(cs)),
            old(cs).valid(*pp_digest),
            U1.valid(*old(cs)),
            U2.valid(*old(cs)),
        ensures
            r == (fold_eq::<E>(plain_input(*self, *pp_digest, *U1, *U2, Valuation::Recorded)) == 0),
    {
        let tables: Vec<AllocatedLookupPayloadPublicMultiTable<E>> = Vec::new();
        let polys: Vec<AllocatedUniPoly<E::Scalar>> = Vec::new();
        let points: Vec<AllocatedNonnativePoint<E>> = Vec::new();
        let running: Vec<AllocatedNum<E::Scalar>> = Vec::new();
        let args = FoldArgs {
            pp_digest,
            U1,
            U2,
            nifs: self,
            tables: &tables,
            polys: &polys,
            inv_w: &points,
            inv_t: &points,
            running: &running,
        };
        proof {
            let x = args.at(Valuation::Recorded);
            assert(x.tables =~= Seq::empty());
            assert(x.polys =~= Seq::empty());
            assert(x.inv_w =~= Seq::empty());
            assert(x.inv_t =~= Seq::empty());
            assert(x.running =~= Seq::empty());
        }
        args.eq_vanishes(cs)
    }

    /// Whether the equality polynomial vanishes at the recorded challenges of a fold with lookups.
    pub fn eq_vanishes_with_lookups(
        &self,
        cs: &mut ConstraintSystem<E::Scalar>,
        pp_digest: &AllocatedNum<E::Scalar>,
        U1: &AllocatedFoldedInstance<E>,
        U2: &AllocatedNonnativeR1CSInstance<E>,
        lookups: &AllocatedLookupNIFSMultiTable<E>,
        public_bundles: &Vec<AllocatedLookupPayloadPublicMultiTable<E>>,
        t_lookup_running_per_table: &Vec<AllocatedNum<E::Scalar>>,
    ) -> (r: bool)
        requires
            old(cs).wf(),
            old(cs).records(),
            self.valid(*old(cs)),
            old(cs).valid(*pp_digest),
            U1.valid(*old(cs)),
            U2.valid(*old(cs)),
            lookups.valid(*old(cs)),
            payloads_valid(*old(cs), public_bundles@),
            nums_valid(*old(cs), t_lookup_running_per_table@),
            counted_alike(*lookups, public_bundles@.len(), t_lookup_running_per_table@.len()),
        ensures
            r == (fold_eq::<E>(
                multi_table_input(
                    plain_input(*self, *pp_digest, *U1, *U2, Valuation::Recorded),
                    *lookups,
                    payloads_at(public_bundles@, Valuation::Recorded),
                    nums_at(t_lookup_running_per_table@, Valuation::Recorded),
                    Valuation::Recorded,
                ),
            ) == 0),
    {
        let args = FoldArgs {
            pp_digest,
            U1,
            U2,
            nifs: self,
            tables: public_bundles,
            polys: &lookups.poly_lookup,
            inv_w: &lookups.comm_inv_w,
            inv_t: &lookups.comm_inv_t,
            running: t_lookup_running_per_table,
        };
        args.eq_vanishes(cs)
    }

    fn verify_one_table(
        &self,
        cs: &mut ConstraintSystem<E::Scalar>,
        pp_digest: &AllocatedNum<E::Scalar>,
        U1: &AllocatedFoldedInstance<E>,
        U2: &AllocatedNonnativeR1CSInstance<E>,
        lookup: &AllocatedLookupNIFS<E>,
        table: AllocatedLookupPayloadPublicMultiTable<E>,
        t_lookup_running: &AllocatedNum<E::Scalar>,
        comm_W_fold: &AllocatedNonnativePoint<E>,
        comm_E_fold: &AllocatedNonnativePoint<E>,
    ) -> (r: Result<LookupVerifyOutput<E>, SynthesisError>)
        requires
            old(cs).wf(),
            self.valid(*old(cs)),
            old(cs).valid(*pp_digest),
            U1.valid(*old(cs)),
            U2.valid(*old(cs)),
            lookup.valid(*old(cs)),
            table.valid(*old(cs)),
            old(cs).valid(*t_lookup_running),
            comm_W_fold.valid(*old(cs)),
            comm_E_fold.valid(*old(cs)),
            old(cs).records() ==> fold_eq::<E>(
                lookup_input(
                    plain_input(*self, *pp_digest, *U1, *U2, Valuation::Recorded),
                    *lookup,
                    table.at(Valuation::Recorded),
                    t_lookup_running.at(Valuation::Recorded),
                    Valuation::Recorded,
                ),
            ) != 0,
        ensures
            old(cs).grows(*final(cs)),
            r is Ok <==> U1.X@.len() == 1,
            r is Err ==> refused_for(r, FOLD_ARITY@),
            forall|w: spec_fn(Variable) -> int| #[trigger]
                final(cs).met_by(w) ==> fold_checks::<E>(
                    lookup_input(
                        plain_input(*self, *pp_digest, *U1, *U2, Valuation::Assigned(w)),
                        *lookup,
                        table.at(Valuation::Assigned(w)),
                        t_lookup_running.at(Valuation::Assigned(w)),
                        Valuation::Assigned(w),
                    ),
                ),
            old(cs).records() ==> (final(cs).satisfied() <==> old(cs).satisfied() && fold_checks::<
                E,
            >(
                lookup_input(
                    plain_input(*self, *pp_digest, *U1, *U2, Valuation::Recorded),
                    *lookup,
                    table.at(Valuation::Recorded),
                    t_lookup_running.at(Valuation::Recorded),
                    Valuation::Recorded,
                ),
            )),
            r is Ok ==> {
                &&& r->Ok_0.U_fold.valid(*final(cs))
                &&& r->Ok_0.U_fold.shape() == U1.shape()
                &&& final(cs).valid(r->Ok_0.T_lookup_out)
                &&& forall|e: Valuation| #[trigger]
                    final(cs).admits(e) ==> folds_to::<E>(
                        lookup_input(
                            plain_input(*self, *pp_digest, *U1, *U2, e),
                            *lookup,
                            table.at(e),
                            t_lookup_running.at(e),
                            e,
                        ),
                        comm_W_fold.at(e),
                        comm_E_fold.at(e),
                        r->Ok_0.U_fold.at(e),
                        seq![r->Ok_0.T_lookup_out.at(e)],
                    )
                &&& (
                    final(cs).layout(),
                    r->Ok_0.U_fold.at(Valuation::Names),
                    seq![r->Ok_0.T_lookup_out.at(Valuation::Names)],
                ) == lay_verify::<E>(
                    old(cs).layout(),
                    lookup_input(
                        plain_input(*self, *pp_digest, *U1, *U2, Valuation::Names),
                        *lookup,
                        table.at(Valuation::Names),
                        t_lookup_running.at(Valuation::Names),
                        Valuation::Names,
                    ),
                    comm_W_fold.at(Valuation::Names),
                    comm_E_fold.at(Valuation::Names),
                )
            },
    {
        let ghost table0 = table;
        let mut tables: Vec<AllocatedLookupPayloadPublicMultiTable<E>> = Vec::new();
        tables.push(table);
        let mut polys: Vec<AllocatedUniPoly<E::Scalar>> = Vec::new();
        polys.push(AllocatedUniPoly { coeffs: copy_nums(&lookup.poly_lookup.coeffs) });
        let mut inv_w: Vec<AllocatedNonnativePoint<E>> = Vec::new();
        inv_w.push(lookup.comm_inv_w.clone());
        let mut inv_t: Vec<AllocatedNonnativePoint<E>> = Vec::new();
        inv_t.push(lookup.comm_inv_t.clone());
        let mut running: Vec<AllocatedNum<E::Scalar>> = Vec::new();
        running.push(*t_lookup_running);
        let args = FoldArgs {
            pp_digest,
            U1,
            U2,
            nifs: self,
            tables: &tables,
            polys: &polys,
            inv_w: &inv_w,
            inv_t: &inv_t,
            running: &running,
        };
        proof {
            assert forall|e: Valuation| #[trigger] args.at(e) == lookup_input(
                plain_input(*self, *pp_digest, *U1, *U2, e),
                *lookup,
                table0.at(e),
                t_lookup_running.at(e),
                e,
            ) by {
                let x = args.at(e);
                let y = lookup_input(
                    plain_input(*self, *pp_digest, *U1, *U2, e),
                    *lookup,
                    table0.at(e),
                    t_lookup_running.at(e),
                    e,
                );
                assert(x.tables =~= y.tables);
                assert(x.polys =~= y.polys);
                assert(x.inv_w =~= y.inv_w);
                assert(x.inv_t =~= y.inv_t);
                assert(x.running =~= y.running);
            }
        }
        let r = args.verify(cs, comm_W_fold, comm_E_fold);
        match r {
            Ok((u, ts)) => {
                let out = LookupVerifyOutput { U_fold: u, T_lookup_out: ts[0] };
                proof {
                    assert(cs.valid(ts@[0]));
                    assert(args.at(Valuation::Names) == args.at(Valuation::Names));
                    assert(nums_at(ts@, Valuation::Names) =~= seq![
                        out.T_lookup_out.at(Valuation::Names),
                    ]);
                    assert forall|e: Valuation| #[trigger] cs.admits(e) implies folds_to::<E>(
                        lookup_input(
                            plain_input(*self, *pp_digest, *U1, *U2, e),
                            *lookup,
                            table0.at(e),
                            t_lookup_running.at(e),
                            e,
                        ),
                        comm_W_fold.at(e),
                        comm_E_fold.at(e),
                        out.U_fold.at(e),
                        seq![out.T_lookup_out.at(e)],
                    ) by {
                        assert(args.at(e) == args.at(e));
                        assert(nums_at(ts@, e) =~= seq![out.T_lookup_out.at(e)]);
                    }
                }
                Ok(out)
            },
            Err(e) => Err(e),
        }
    }

    /// Verifies a fold with lookups in a table without value columns.
    pub fn verify_with_lookup(
        &self,
        cs: &mut ConstraintSystem<E::Scalar>,
        pp_digest: &AllocatedNum<E::Scalar>,
        U1: &AllocatedFoldedInstance<E>,
        U2: &AllocatedNonnativeR1CSInstance<E>,
        lookup: &AllocatedLookupNIFS<E>,
        comm_L_pub: &AllocatedNonnativePoint<E>,
        comm_ts_pub: &AllocatedNonnativePoint<E>,
        t_lookup_running: &AllocatedNum<E::Scalar>,
        comm_W_fold: &AllocatedNonnativePoint<E>,
        comm_E_fold: &AllocatedNonnativePoint<E>,
    ) -> (r: Result<LookupVerifyOutput<E>, SynthesisError>)
        requires
            old(cs).wf(),
            self.valid(*old(cs)),
            old(cs).valid(*pp_digest),
            U1.valid(*old(cs)),
            U2.valid(*old(cs)),
            lookup.valid(*old(cs)),
            comm_L_pub.valid(*old(cs)),
            comm_ts_pub.valid(*old(cs)),
            old(cs).valid(*t_lookup_running),
            comm_W_fold.valid(*old(cs)),
            comm_E_fold.valid(*old(cs)),
            old(cs).records() ==> fold_eq::<E>(
                lookup_input(
                    plain_input(*self, *pp_digest, *U1, *U2, Valuation::Recorded),
                    *lookup,
                    table_at(*comm_L_pub, Seq::empty(), *comm_ts_pub, Valuation::Recorded),
                    t_lookup_running.at(Valuation::Recorded),
                    Valuation::Recorded,
                ),
            ) != 0,
        ensures
            old(cs).grows(*final(cs)),
            r is Ok <==> U1.X@.len() == 1,
            r is Err ==> refused_for(r, FOLD_ARITY@),
            forall|w: spec_fn(Variable) -> int| #[trigger]
                final(cs).met_by(w) ==> fold_checks::<E>(
                    lookup_input(
                        plain_input(*self, *pp_digest, *U1, *U2, Valuation::Assigned(w)),
                        *lookup,
                        table_at(*comm_L_pub, Seq::empty(), *comm_ts_pub, Valuation::Assigned(w)),
                        t_lookup_running.at(Valuation::Assigned(w)),
                        Valuation::Assigned(w),
                    ),
                ),
            old(cs).records() ==> (final(cs).satisfied() <==> old(cs).satisfied() && fold_checks::<
                E,
            >(
                lookup_input(
                    plain_input(*self, *pp_digest, *U1, *U2, Valuation::Recorded),
                    *lookup,
                    table_at(*comm_L_pub, Seq::empty(), *comm_ts_pub, Valuation::Recorded),
                    t_lookup_running.at(Valuation::Recorded),
                    Valuation::Recorded,
                ),
            )),
            r is Ok ==> {
                &&& r->Ok_0.U_fold.valid(*final(cs))
                &&& r->Ok_0.U_fold.shape() == U1.shape()
                &&& final(cs).valid(r->Ok_0.T_lookup_out)
                &&& forall|e: Valuation| #[trigger]
                    final(cs).admits(e) ==> folds_to::<E>(
                        lookup_input(
                            plain_input(*self, *pp_digest, *U1, *U2, e),
                            *lookup,
                            table_at(*comm_L_pub, Seq::empty(), *comm_ts_pub, e),
                            t_lookup_running.at(e),
                            e,
                        ),
                        comm_W_fold.at(e),
                        comm_E_fold.at(e),
                        r->Ok_0.U_fold.at(e),
                        seq![r->Ok_0.T_lookup_out.at(e)],
                    )
                &&& (
                    final(cs).layout(),
                    r->Ok_0.U_fold.at(Valuation::Names),
                    seq![r->Ok_0.T_lookup_out.at(Valuation::Names)],
                ) == lay_verify::<E>(
                    old(cs).layout(),
                    lookup_input(
                        plain_input(*self, *pp_digest, *U1, *U2, Valuation::Names),
                        *lookup,
                        table_at(*comm_L_pub, Seq::empty(), *comm_ts_pub, Valuation::Names),
                        t_lookup_running.at(Valuation::Names),
                        Valuation::Names,
                    ),
                    comm_W_fold.at(Valuation::Names),
                    comm_E_fold.at(Valuation::Names),
                )
            },
    {
        let table = AllocatedLookupPayloadPublicMultiTable {
            comm_L: comm_L_pub.clone(),
            comm_values: Vec::new(),
            comm_ts: comm_ts_pub.clone(),
        };
        proof {
            assert forall|e: Valuation| #[trigger] table.at(e) == table_at(
                *comm_L_pub,
                Seq::empty(),
                *comm_ts_pub,
                e,
            ) by {
                assert(table.at(e).comm_values =~= points_at::<E>(Seq::empty(), e));
            }
        }
        self.verify_one_table(
            cs,
            pp_digest,
            U1,
            U2,
            lookup,
            table,
            t_lookup_running,
            comm_W_fold,
            comm_E_fold,
        )
    }

    /// Verifies a fold with lookups in a table with value columns.
    pub fn verify_with_multi_column_lookup(
        &self,
        cs: &mut ConstraintSystem<E::Scalar>,
        pp_digest: &AllocatedNum<E::Scalar>,
        U1: &AllocatedFoldedInstance<E>,
        U2: &AllocatedNonnativeR1CSInstance<E>,
        lookup: &AllocatedLookupNIFS<E>,
        comm_L_pub: &AllocatedNonnativePoint<E>,
        comm_values_pub: &Vec<AllocatedNonnativePoint<E>>,
        comm_ts_pub: &AllocatedNonnativePoint<E>,
        t_lookup_running: &AllocatedNum<E::Scalar>,
        comm_W_fold: &AllocatedNonnativePoint<E>,
        comm_E_fold: &AllocatedNonnativePoint<E>,
    ) -> (r: Result<LookupVerifyOutput<E>, SynthesisError>)
        requires
            old(cs).wf(),
            self.valid(*old(cs)),
            old(cs).valid(*pp_digest),
            U1.valid(*old(cs)),
            U2.valid(*old(cs)),
            lookup.valid(*old(cs)),
            comm_L_pub.valid(*old(cs)),
            points_valid(*old(cs), comm_values_pub@),
            comm_ts_pub.valid(*old(cs)),
            old(cs).valid(*t_lookup_running),
            comm_W_fold.valid(*old(cs)),
            comm_E_fold.valid(*old(cs)),
            old(cs).records() ==> fold_eq::<E>(
                lookup_input(
                    plain_input(*self, *pp_digest, *U1, *U2, Valuation::Recorded),
                    *lookup,
                    table_at(*comm_L_pub, comm_values_pub@, *comm_ts_pub, Valuation::Recorded),
                    t_lookup_running.at(Valuation::Recorded),
                    Valuation::Recorded,
                ),
            ) != 0,
        ensures
            old(cs).grows(*final(cs)),
            r is Ok <==> U1.X@.len() == 1,
            r is Err ==> refused_for(r, FOLD_ARITY@),
            forall|w: spec_fn(Variable) -> int| #[trigger]
                final(cs).met_by(w) ==> fold_checks::<E>(
                    lookup_input(
                        plain_input(*self, *pp_digest, *U1, *U2, Valuation::Assigned(w)),
                        *lookup,
                        table_at(*comm_L_pub, comm_values_pub@, *comm_ts_pub, Valuation::Assigned(w)),
                        t_lookup_running.at(Valuation::Assigned(w)),
                        Valuation::Assigned(w),
                    ),
                ),
            old(cs).records() ==> (final(cs).satisfied() <==> old(cs).satisfied() && fold_checks::<
                E,
            >(
                lookup_input(
                    plain_input(*self, *pp_digest, *U1, *U2, Valuation::Recorded),
                    *lookup,
                    table_at(*comm_L_pub, comm_values_pub@, *comm_ts_pub, Valuation::Recorded),
                    t_lookup_running.at(Valuation::Recorded),
                    Valuation::Recorded,
                ),
            )),
            r is Ok ==> {
                &&& r->Ok_0.U_fold.valid(*final(cs))
                &&& r->Ok_0.U_fold.shape() == U1.shape()
                &&& final(cs).valid(r->Ok_0.T_lookup_out)
                &&& forall|e: Valuation| #[trigger]
                    final(cs).admits(e) ==> folds_to::<E>(
                        lookup_input(
                            plain_input(*self, *pp_digest, *U1, *U2, e),
                            *lookup,
                            table_at(*comm_L_pub, comm_values_pub@, *comm_ts_pub, e),
                            t_lookup_running.at(e),
                            e,
                        ),
                        comm_W_fold.at(e),
                        comm_E_fold.at(e),
                        r->Ok_0.U_fold.at(e),
                        seq![r->Ok_0.T_lookup_out.at(e)],
                    )
                &&& (
                    final(cs).layout(),
                    r->Ok_0.U_fold.at(Valuation::Names),
                    seq![r->Ok_0.T_lookup_out.at(Valuation::Names)],
                ) == lay_verify::<E>(
                    old(cs).layout(),
                    lookup_input(
                        plain_input(*self, *pp_digest, *U1, *U2, Valuation::Names),
                        *lookup,
                        table_at(*comm_L_pub, comm_values_pub@, *comm_ts_pub, Valuation::Names),
                        t_lookup_running.at(Valuation::Names),
                        Valuation::Names,
                    ),
                    comm_W_fold.at(Valuation::Names),
                    comm_E_fold.at(Valuation::Names),
                )
            },
    {
        let table = AllocatedLookupPayloadPublicMultiTable {
            comm_L: comm_L_pub.clone(),
            comm_values: copy_alloc_points(comm_values_pub),
            comm_ts: comm_ts_pub.clone(),
        };
        proof {
            assert forall|e: Valuation| #[trigger] table.at(e) == table_at(
                *comm_L_pub,
                comm_values_pub@,
                *comm_ts_pub,
                e,
            ) by {
                assert(table.at(e).comm_values =~= points_at(comm_values_pub@, e));
            }
        }
        self.verify_one_table(
            cs,
            pp_digest,
            U1,
            U2,
            lookup,
            table,
            t_lookup_running,
            comm_W_fold,
            comm_E_fold,
        )
    }

    /// Verifies a fold with lookups in several tables, for public parameters whose digest stands
    /// in the registry.
    pub fn verify_with_multi_table_lookup(
        &self,
        cs: &mut ConstraintSystem<E::Scalar>,
        pp_digest: &AllocatedNum<E::Scalar>,
        chunk_index_in_z: &AllocatedNum<E::Scalar>,
        shape_registry: &Vec<AllocatedNum<E::Scalar>>,
        index_n_bits: usize,
        U1: &AllocatedFoldedInstance<E>,
        U2: &AllocatedNonnativeR1CSInstance<E>,
        lookups: &AllocatedLookupNIFSMultiTable<E>,
        public_bundles: &Vec<AllocatedLookupPayloadPublicMultiTable<E>>,
        t_lookup_running_per_table: &Vec<AllocatedNum<E::Scalar>>,
        comm_W_fold: &AllocatedNonnativePoint<E>,
        comm_E_fold: &AllocatedNonnativePoint<E>,
    ) -> (r: Result<LookupVerifyOutputMultiTable<E>, SynthesisError>)
        requires
            old(cs).wf(),
            self.valid(*old(cs)),
            old(cs).valid(*pp_digest),
            old(cs).valid(*chunk_index_in_z),
            nums_valid(*old(cs), shape_registry@),
            U1.valid(*old(cs)),
            U2.valid(*old(cs)),
            lookups.valid(*old(cs)),
            payloads_valid(*old(cs), public_bundles@),
            nums_valid(*old(cs), t_lookup_running_per_table@),
            comm_W_fold.valid(*old(cs)),
            comm_E_fold.valid(*old(cs)),
            old(cs).records() && counted_alike(
                *lookups,
                public_bundles@.len(),
                t_lookup_running_per_table@.len(),
            ) ==> fold_eq::<E>(
                multi_table_input(
                    plain_input(*self, *pp_digest, *U1, *U2, Valuation::Recorded),
                    *lookups,
                    payloads_at(public_bundles@, Valuation::Recorded),
                    nums_at(t_lookup_running_per_table@, Valuation::Recorded),
                    Valuation::Recorded,
                ),
            ) != 0,
        ensures
            old(cs).grows(*final(cs)),
            r is Ok <==> counted_alike(
                *lookups,
                public_bundles@.len(),
                t_lookup_running_per_table@.len(),
            ) && U1.X@.len() == 1,
            !counted_alike(*lookups, public_bundles@.len(), t_lookup_running_per_table@.len())
                ==> *final(cs) == *old(cs) && refused_for(
                r,
                count_mismatch(
                    lookups.poly_lookup@.len(),
                    public_bundles@.len(),
                    t_lookup_running_per_table@.len(),
                    lookups.comm_inv_w@.len(),
                    lookups.comm_inv_t@.len(),
                ),
            ),
            counted_alike(*lookups, public_bundles@.len(), t_lookup_running_per_table@.len())
                ==> {
                &&& r is Err ==> refused_for(r, FOLD_ARITY@)
                &&& forall|w: spec_fn(Variable) -> int| #[trigger]
                    final(cs).met_by(w) ==> registered(
                    E::Scalar::modulus(),
                    pp_digest.at(Valuation::Assigned(w)),
                    chunk_index_in_z.at(Valuation::Assigned(w)),
                    nums_at(shape_registry@, Valuation::Assigned(w)),
                    index_n_bits as nat,
                ) && fold_checks::<E>(
                    multi_table_input(
                        plain_input(*self, *pp_digest, *U1, *U2, Valuation::Assigned(w)),
                        *lookups,
                        payloads_at(public_bundles@, Valuation::Assigned(w)),
                        nums_at(t_lookup_running_per_table@, Valuation::Assigned(w)),
                        Valuation::Assigned(w),
                    ),
                )
                &&& old(cs).records() ==> (final(cs).satisfied() <==> old(cs).satisfied()
                    && registered(
                    E::Scalar::modulus(),
                    pp_digest.at(Valuation::Recorded),
                    chunk_index_in_z.at(Valuation::Recorded),
                    nums_at(shape_registry@, Valuation::Recorded),
                    index_n_bits as nat,
                ) && fold_checks::<E>(
                    multi_table_input(
                        plain_input(*self, *pp_digest, *U1, *U2, Valuation::Recorded),
                        *lookups,
                        payloads_at(public_bundles@, Valuation::Recorded),
                        nums_at(t_lookup_running_per_table@, Valuation::Recorded),
                        Valuation::Recorded,
                    ),
                ))
            },
            r is Ok ==> {
                &&& r->Ok_0.U_fold.valid(*final(cs))
                &&& r->Ok_0.U_fold.shape() == U1.shape()
                &&& nums_valid(*final(cs), r->Ok_0.T_lookup_out_per_table@)
                &&& r->Ok_0.T_lookup_out_per_table@.len() == lookups.poly_lookup@.len()
                &&& points_valid(*final(cs), r->Ok_0.comm_L_fold_per_table@)
                &&& points_valid(*final(cs), r->Ok_0.comm_ts_fold_per_table@)
                &&& r->Ok_0.comm_L_fold_per_table@.len() == lookups.comm_L_fold@.len()
                &&& r->Ok_0.comm_ts_fold_per_table@.len() == lookups.comm_ts_fold@.len()
                &&& forall|e: Valuation| #[trigger]
                    points_at(r->Ok_0.comm_L_fold_per_table@, e) == points_at(
                        lookups.comm_L_fold@,
                        e,
                    )
                &&& forall|e: Valuation| #[trigger]
                    points_at(r->Ok_0.comm_ts_fold_per_table@, e) == points_at(
                        lookups.comm_ts_fold@,
                        e,
                    )
                &&& forall|e: Valuation| #[trigger]
                    final(cs).admits(e) ==> folds_to::<E>(
                        multi_table_input(
                            plain_input(*self, *pp_digest, *U1, *U2, e),
                            *lookups,
                            payloads_at(public_bundles@, e),
                            nums_at(t_lookup_running_per_table@, e),
                            e,
                        ),
                        comm_W_fold.at(e),
                        comm_E_fold.at(e),
                        r->Ok_0.U_fold.at(e),
                        nums_at(r->Ok_0.T_lookup_out_per_table@, e),
                    )
                &&& (
                    final(cs).layout(),
                    r->Ok_0.U_fold.at(Valuation::Names),
                    nums_at(r->Ok_0.T_lookup_out_per_table@, Valuation::Names),
                ) == lay_verify::<E>(
                    lay_registered(
                        E::Scalar::modulus(),
                        old(cs).layout(),
                        pp_digest.at(Valuation::Names),
                        chunk_index_in_z.at(Valuation::Names),
                        nums_at(shape_registry@, Valuation::Names),
                        index_n_bits as nat,
                    ),
                    multi_table_input(
                        plain_input(*self, *pp_digest, *U1, *U2, Valuation::Names),
                        *lookups,
                        payloads_at(public_bundles@, Valuation::Names),
                        nums_at(t_lookup_running_per_table@, Valuation::Names),
                        Valuation::Names,
                    ),
                    comm_W_fold.at(Valuation::Names),
                    comm_E_fold.at(Valuation::Names),
                )
            },
    {
        let k: usize = lookups.k();
        let n_bundles: usize = public_bundles.len();
        let n_running: usize = t_lookup_running_per_table.len();
        let n_inv_w: usize = lookups.comm_inv_w.len();
        let n_inv_t: usize = lookups.comm_inv_t.len();
        if n_bundles != k || n_running != k || n_inv_w != k || n_inv_t != k {
            let reason = write_count_mismatch(k, n_bundles, n_running, n_inv_w, n_inv_t);
            return Err(SynthesisError::Unsatisfiable(reason));
        }
        let args = FoldArgs {
            pp_digest,
            U1,
            U2,
            nifs: self,
            tables: public_bundles,
            polys: &lookups.poly_lookup,
            inv_w: &lookups.comm_inv_w,
            inv_t: &lookups.comm_inv_t,
            running: t_lookup_running_per_table,
        };
        assert_pp_digest_matches_registry::<E>(
            cs,
            pp_digest,
            chunk_index_in_z,
            shape_registry,
            index_n_bits,
        );
        let ghost s1 = *cs;
        proof {
            args.lemma_valid_grows(*old(cs), s1);
            assert forall|e: Valuation| #[trigger] args.at(e) == multi_table_input(
                    plain_input(*self, *pp_digest, *U1, *U2, e),
                    *lookups,
                    payloads_at(public_bundles@, e),
                    nums_at(t_lookup_running_per_table@, e),
                    e,
                ) by {}
        }
        let r = args.verify(cs, comm_W_fold, comm_E_fold);
        proof {
            assert forall|w: spec_fn(Variable) -> int| #[trigger] cs.met_by(w) implies registered(
                    E::Scalar::modulus(),
                    pp_digest.at(Valuation::Assigned(w)),
                    chunk_index_in_z.at(Valuation::Assigned(w)),
                    nums_at(shape_registry@, Valuation::Assigned(w)),
                    index_n_bits as nat,
                ) by {
                assert(cs.admits(Valuation::Assigned(w)));
                assert(s1.admits(Valuation::Assigned(w)));
            }
            assert forall|w: spec_fn(Variable) -> int| #[trigger] cs.met_by(w) implies fold_checks::<E>(
                    multi_table_input(
                        plain_input(*self, *pp_digest, *U1, *U2, Valuation::Assigned(w)),
                        *lookups,
                        payloads_at(public_bundles@, Valuation::Assigned(w)),
                        nums_at(t_lookup_running_per_table@, Valuation::Assigned(w)),
                        Valuation::Assigned(w),
                    ),
                ) by {
                assert(args.at(Valuation::Assigned(w)) == multi_table_input(
                    plain_input(*self, *pp_digest, *U1, *U2, Valuation::Assigned(w)),
                    *lookups,
                    payloads_at(public_bundles@, Valuation::Assigned(w)),
                    nums_at(t_lookup_running_per_table@, Valuation::Assigned(w)),
                    Valuation::Assigned(w),
                ));
            }
            assert(args.at(Valuation::Recorded) == multi_table_input(
                    plain_input(*self, *pp_digest, *U1, *U2, Valuation::Recorded),
                    *lookups,
                    payloads_at(public_bundles@, Valuation::Recorded),
                    nums_at(t_lookup_running_per_table@, Valuation::Recorded),
                    Valuation::Recorded,
                ));
        }
        match r {
            Ok((u, ts)) => {
                let out = LookupVerifyOutputMultiTable {
                    U_fold: u,
                    T_lookup_out_per_table: ts,
                    comm_L_fold_per_table: copy_alloc_points(&lookups.comm_L_fold),
                    comm_ts_fold_per_table: copy_alloc_points(&lookups.comm_ts_fold),
                };
                proof {
                    assert forall|i: int| 0 <= i < lookups.comm_L_fold@.len() implies (
                    #[trigger] out.comm_L_fold_per_table@[i]).valid(*cs) by {
                        assert(lookups.comm_L_fold@[i].valid(*old(cs)));
                    }
                    assert forall|i: int| 0 <= i < lookups.comm_ts_fold@.len() implies (
                    #[trigger] out.comm_ts_fold_per_table@[i]).valid(*cs) by {
                        assert(lookups.comm_ts_fold@[i].valid(*old(cs)));
                    }
                    assert forall|e: Valuation| #[trigger]
                        points_at(out.comm_L_fold_per_table@, e) == points_at(
                            lookups.comm_L_fold@,
                            e,
                        ) by {
                        assert(points_at(out.comm_L_fold_per_table@, e) =~= points_at(
                            lookups.comm_L_fold@,
                            e,
                        ));
                    }
                    assert forall|e: Valuation| #[trigger]
                        points_at(out.comm_ts_fold_per_table@, e) == points_at(
                            lookups.comm_ts_fold@,
                            e,
                        ) by {
                        assert(points_at(out.comm_ts_fold_per_table@, e) =~= points_at(
                            lookups.comm_ts_fold@,
                            e,
                        ));
                    }
                    assert forall|e: Valuation| #[trigger] cs.admits(e) implies folds_to::<E>(
                        multi_table_input(
                            plain_input(*self, *pp_digest, *U1, *U2, e),
                            *lookups,
                            payloads_at(public_bundles@, e),
                            nums_at(t_lookup_running_per_table@, e),
                            e,
                        ),
                        comm_W_fold.at(e),
                        comm_E_fold.at(e),
                        out.U_fold.at(e),
                        nums_at(out.T_lookup_out_per_table@, e),
                    ) by {
                        assert(args.at(e) == multi_table_input(
                            plain_input(*self, *pp_digest, *U1, *U2, e),
                            *lookups,
                            payloads_at(public_bundles@, e),
                            nums_at(t_lookup_running_per_table@, e),
                            e,
                        ));
                    }
                }
                Ok(out)
            },
            Err(e) => Err(e),
        }
    }
}

/// What a fold without lookups is verified on inside a circuit: the digest, the running instance,
/// the whole instance that is folded in, and the commitment and the polynomial of the message, each
/// as its numbers read.
pub proof fn law_plain_fold_read<E: Engine>(
    nifs: AllocatedNIFS<E>,
    pp_digest: AllocatedNum<E::Scalar>,
    U1: AllocatedFoldedInstance<E>,
    U2: AllocatedNonnativeR1CSInstance<E>,
    e: Valuation,
)
    ensures
        ({
            let x = plain_input(nifs, pp_digest, U1, U2, e);
            &&& x.pp == pp_digest.at(e)
            &&& x.U1 == U1.at(e)
            &&& x.U2.comm_W == nums_at(U2.comm_W.limbs@, e)
            &&& x.U2.X == U2.X.at(e)
            &&& x.comm_E == nums_at(nifs.comm_E.limbs@, e)
            &&& x.poly == nums_at(nifs.poly.coeffs@, e)
            &&& x.tables.len() == 0
            &&& x.polys.len() == 0
        }),
{
}

/// What a fold with lookups in one table is verified on besides: the commitments to the lookups, to
/// every value column and to the multiplicities, the polynomial, both commitments to inverses and
/// the running claim.
pub proof fn law_lookup_fold_read<E: Engine>(
    plain: FoldInput,
    lookup: AllocatedLookupNIFS<E>,
    comm_L: AllocatedNonnativePoint<E>,
    comm_values: Seq<AllocatedNonnativePoint<E>>,
    comm_ts: AllocatedNonnativePoint<E>,
    running: int,
    e: Valuation,
)
    ensures
        ({
            let t = table_at(comm_L, comm_values, comm_ts, e);
            let x = lookup_input(plain, lookup, t, running, e);
            &&& x.pp == plain.pp
            &&& x.U1 == plain.U1
            &&& x.U2 == plain.U2
            &&& x.comm_E == plain.comm_E
            &&& x.poly == plain.poly
            &&& x.tables.len() == 1
            &&& x.tables[0].comm_L == nums_at(comm_L.limbs@, e)
            &&& x.tables[0].comm_ts == nums_at(comm_ts.limbs@, e)
            &&& x.tables[0].comm_values.len() == comm_values.len()
            &&& forall|c: int|
                0 <= c < comm_values.len() ==> x.tables[0].comm_values[c] == nums_at(
                    (#[trigger] comm_values[c]).limbs@,
                    e,
                )
            &&& x.polys.len() == 1
            &&& x.polys[0] == nums_at(lookup.poly_lookup.coeffs@, e)
            &&& x.inv_w.len() == 1
            &&& x.inv_w[0] == nums_at(lookup.comm_inv_w.limbs@, e)
            &&& x.inv_t.len() == 1
            &&& x.inv_t[0] == nums_at(lookup.comm_inv_t.limbs@, e)
            &&& x.running.len() == 1
            &&& x.running[0] == running
        }),
{
}

/// What a fold with lookups in several tables is verified on besides: for every table the
/// commitments to the lookups, to every value column and to the multiplicities, the polynomial,
/// both commitments to inverses and the running claim.
pub proof fn law_tables_fold_read<E: Engine>(
    plain: FoldInput,
    lookups: AllocatedLookupNIFSMultiTable<E>,
    tables: Seq<AllocatedLookupPayloadPublicMultiTable<E>>,
    running: Seq<AllocatedNum<E::Scalar>>,
    e: Valuation,
    j: int,
)
    requires
        0 <= j < tables.len(),
        j < lookups.poly_lookup@.len(),
        j < lookups.comm_inv_w@.len(),
        j < lookups.comm_inv_t@.len(),
        j < running.len(),
    ensures
        ({
            let x = multi_table_input(
                plain,
                lookups,
                payloads_at(tables, e),
                nums_at(running, e),
                e,
            );
            &&& x.pp == plain.pp
            &&& x.U1 == plain.U1
            &&& x.U2 == plain.U2
            &&& x.comm_E == plain.comm_E
            &&& x.poly == plain.poly
            &&& x.tables.len() == tables.len()
            &&& x.polys.len() == lookups.poly_lookup@.len()
            &&& x.inv_w.len() == lookups.comm_inv_w@.len()
            &&& x.inv_t.len() == lookups.comm_inv_t@.len()
            &&& x.running.len() == running.len()
            &&& x.tables[j].comm_L == nums_at(tables[j].comm_L.limbs@, e)
            &&& x.tables[j].comm_ts == nums_at(tables[j].comm_ts.limbs@, e)
            &&& x.tables[j].comm_values.len() == tables[j].comm_values@.len()
            &&& forall|c: int|
                0 <= c < tables[j].comm_values@.len() ==> x.tables[j].comm_values[c] == nums_at(
                    (#[trigger] tables[j].comm_values@[c]).limbs@,
                    e,
                )
            &&& x.polys[j] == nums_at(lookups.poly_lookup@[j].coeffs@, e)
            &&& x.inv_w[j] == nums_at(lookups.comm_inv_w@[j].limbs@, e)
            &&& x.inv_t[j] == nums_at(lookups.comm_inv_t@[j].limbs@, e)
            &&& x.running[j] == running[j].at(e)
        }),
{
}

} // verus!
