//! The lookup side of a fold inside a circuit.

use crate::circuit::relation::{
    alloc_missing_points, alloc_points, fresh_points, points_at, points_valid,
};
use crate::engine::{identity_coordinates, Engine, Group, RO2Circuit, POINT_LIMBS};
use crate::errors::SynthesisError;
use crate::field::{lemma_cong_add, lemma_cong_mul, lemma_residue, PrimeField};
use crate::frontend::{
    fresh, less, once, unit, AllocatedNum, ConstraintSystem, Layout, LinearCombination, Valuation,
    Variable,
};
use crate::gadgets::{
    lay_mul_add, lay_product, lay_quotient, mul_add, product, quotient,
};
use crate::point::{absorb_nums, absorbs, AllocatedNonnativePoint};
use crate::poly::{
    claim_met, evaluated_name, lay_claim_met, lay_evaluate, padded_poly, peval, AllocatedUniPoly,
};
use crate::relation::{LookupPayloadPublicMultiTable, TableVal, NIFS};
use vstd::prelude::*;

verus! {

/// The degree of a lookup's round polynomial.
pub const LOOKUP_POLY_DEGREE: usize = 5;

/// The multilinear equality polynomial at two points.
pub open spec fn eq_at(p: int, rho: int, r_b: int) -> int {
    ((1 - rho) * (1 - r_b) + rho * r_b) % p
}

/// `t_out` is the value of the round polynomial at the challenge, divided by `eq`.
pub open spec fn claim_carried(p: int, poly: Seq<int>, eq: int, r_b: int, t_out: int) -> bool {
    (t_out * eq) % p == peval(poly, r_b) % p
}

/// What a system becomes when the equality polynomial is computed in it.
pub open spec fn lay_eq(p: int, l: Layout, rho: int, r_b: int) -> Layout {
    let l1 = lay_product(l, less(p, unit(), rho), less(p, unit(), r_b));
    lay_mul_add(p, l1, once(rho), once(r_b), l.aux as int)
}

/// What a system becomes when a lookup's round is verified in it.
pub open spec fn lay_verify_step(
    p: int,
    l: Layout,
    poly: Seq<int>,
    rho: int,
    r_b: int,
    running: int,
) -> Layout {
    let l1 = lay_claim_met(l, poly, running);
    lay_carry(p, lay_eq(p, l1, rho, r_b), poly, l1.aux + 1int, r_b)
}

/// The name of the claim that comes out of the check of one table.
pub open spec fn verify_step_name(
    p: int,
    l: Layout,
    poly: Seq<int>,
    rho: int,
    r_b: int,
    running: int,
) -> int {
    carried_name(p, lay_eq(p, lay_claim_met(l, poly, running), rho, r_b), poly, r_b)
}

/// What a system becomes when a claim is carried over.
pub open spec fn lay_carry(p: int, l: Layout, poly: Seq<int>, eq: int, r_b: int) -> Layout {
    lay_quotient(lay_evaluate(p, l, poly, r_b), evaluated_name(l, poly), eq)
}

/// The name of a claim that is carried over.
pub open spec fn carried_name(p: int, l: Layout, poly: Seq<int>, r_b: int) -> int {
    lay_evaluate(p, l, poly, r_b).aux as int
}

/// The number bound to the equality polynomial at two points.
pub fn alloc_eq<F: PrimeField>(
    cs: &mut ConstraintSystem<F>,
    rho: &AllocatedNum<F>,
    r_b: &AllocatedNum<F>,
) -> (r: AllocatedNum<F>)
    requires
        old(cs).wf(),
        old(cs).valid(*rho),
        old(cs).valid(*r_b),
    ensures
        old(cs).grows(*final(cs)),
        final(cs).valid(r),
        forall|e: Valuation| #[trigger]
            final(cs).admits(e) ==> r.at(e) == eq_at(F::modulus(), rho.at(e), r_b.at(e)),
        old(cs).records() ==> final(cs).satisfied() == old(cs).satisfied(),
        final(cs).layout() == lay_eq(
            F::modulus(),
            old(cs).layout(),
            rho.at(Valuation::Names),
            r_b.at(Valuation::Names),
        ),
        r.at(Valuation::Names) == old(cs).layout().aux + 1,
{
    let ghost p = F::modulus();
    let ghost before = *cs;
    let one = ConstraintSystem::one();
    let a = LinearCombination::diff(&one, rho);
    let b = LinearCombination::diff(&one, r_b);
    let eq_one = product(cs, a, b);
    let ghost middle = *cs;
    let c = LinearCombination::of(rho);
    let d = LinearCombination::of(r_b);
    let r = mul_add(cs, c, d, &eq_one);
    proof {
        F::lemma_modulus();
        assert forall|e: Valuation| #[trigger] cs.admits(e) implies r.at(e) == eq_at(
            p,
            rho.at(e),
            r_b.at(e),
        ) by {
            assert(middle.admits(e));
            assert(before.admits(e));
            assert(one.at(e) == 1);
            let x = rho.at(e);
            let y = r_b.at(e);
            assert(a.at(e) == (1 - x) % p && b.at(e) == (1 - y) % p);
            assert(c.at(e) == x && d.at(e) == y);
            lemma_residue(p, 1 - x);
            lemma_residue(p, 1 - y);
            lemma_cong_mul(p, (1 - x) % p, (1 - y) % p, 1 - x, 1 - y);
            lemma_residue(p, (1 - x) * (1 - y));
            lemma_cong_add(p, x * y, eq_one.at(e), x * y, (1 - x) * (1 - y));
        }
    }
    r
}

/// The number bound to the value of a round polynomial at the challenge, divided by `eq`.
pub fn carry_claim<F: PrimeField>(
    cs: &mut ConstraintSystem<F>,
    poly: &AllocatedUniPoly<F>,
    eq: &AllocatedNum<F>,
    r_b: &AllocatedNum<F>,
) -> (r: AllocatedNum<F>)
    requires
        old(cs).wf(),
        poly.valid(*old(cs)),
        poly.coeffs@.len() > 0,
        old(cs).valid(*eq),
        old(cs).valid(*r_b),
        old(cs).records() ==> eq.at(Valuation::Recorded) != 0,
    ensures
        old(cs).grows(*final(cs)),
        final(cs).valid(r),
        forall|e: Valuation| #[trigger]
            final(cs).admits(e) ==> claim_carried(
                F::modulus(),
                poly.at(e),
                eq.at(e),
                r_b.at(e),
                r.at(e),
            ),
        old(cs).records() ==> final(cs).satisfied() == old(cs).satisfied(),
        final(cs).layout() == lay_carry(
            F::modulus(),
            old(cs).layout(),
            poly.at(Valuation::Names),
            eq.at(Valuation::Names),
            r_b.at(Valuation::Names),
        ),
        r.at(Valuation::Names) == carried_name(
            F::modulus(),
            old(cs).layout(),
            poly.at(Valuation::Names),
            r_b.at(Valuation::Names),
        ),
{
    let eval = poly.evaluate(cs, r_b);
    let ghost middle = *cs;
    let r = quotient(cs, &eval, eq);
    proof {
        assert forall|e: Valuation| #[trigger] cs.admits(e) implies claim_carried(
            F::modulus(),
            poly.at(e),
            eq.at(e),
            r_b.at(e),
            r.at(e),
        ) by {
            assert(middle.admits(e));
        }
    }
    r
}

/// The polynomial at a position of a message's lookup polynomials, where there is one.
pub open spec fn lookup_poly<E: Engine>(nifs: Option<&NIFS<E>>, j: nat) -> Seq<int> {
    match nifs {
        Some(n) => match n.poly_lookup {
            Some(v) => if j < v@.len() {
                v@[j as int]@
            } else {
                Seq::empty()
            },
            None => Seq::empty(),
        },
        None => Seq::empty(),
    }
}

/// Every lookup polynomial of a message has at most the degree that the circuit fixes.
pub open spec fn lookup_degrees<E: Engine>(nifs: Option<&NIFS<E>>) -> bool {
    match nifs {
        Some(n) => match n.poly_lookup {
            Some(v) => forall|j: int|
                0 <= j < v@.len() ==> (#[trigger] v@[j])@.len() <= LOOKUP_POLY_DEGREE + 1,
            None => true,
        },
        None => true,
    }
}

/// The coordinates of the group element at a position, those of the neutral element where there
/// is none.
pub open spec fn nth_coordinates<E: Engine>(v: Option<Vec<E::GE>>, j: nat) -> Seq<int> {
    match v {
        Some(x) => if j < x@.len() {
            E::GE::coordinates(x@[j as int].log())
        } else {
            identity_coordinates()
        },
        None => identity_coordinates(),
    }
}

fn alloc_nth_point<E: Engine>(
    cs: &mut ConstraintSystem<E::Scalar>,
    v: Option<&Vec<E::GE>>,
    j: usize,
) -> (r: AllocatedNonnativePoint<E>)
    requires
        old(cs).wf(),
    ensures
        old(cs).grows(*final(cs)),
        r.valid(*final(cs)),
        forall|e: Valuation| #[trigger] final(cs).admits(e) == old(cs).admits(e),
        final(cs).satisfied() == old(cs).satisfied(),
        old(cs).records() ==> r.at(Valuation::Recorded) == (match v {
            Some(x) => if j < x@.len() {
                E::GE::coordinates(x@[j as int].log())
            } else {
                identity_coordinates()
            },
            None => identity_coordinates(),
        }),
        final(cs).layout() == old(cs).layout().more(POINT_LIMBS as nat),
        r.at(Valuation::Names) == fresh(old(cs).layout().aux, POINT_LIMBS as nat),
{
    let point = match v {
        Some(x) => {
            if j < x.len() {
                Some(&x[j])
            } else {
                None
            }
        },
        None => None,
    };
    AllocatedNonnativePoint::allocate(cs, point)
}

fn alloc_nth_poly<E: Engine>(
    cs: &mut ConstraintSystem<E::Scalar>,
    nifs: Option<&NIFS<E>>,
    j: usize,
) -> (r: AllocatedUniPoly<E::Scalar>)
    requires
        old(cs).wf(),
        lookup_degrees(nifs),
    ensures
        old(cs).grows(*final(cs)),
        r.valid(*final(cs)),
        r.coeffs@.len() == LOOKUP_POLY_DEGREE + 1,
        forall|e: Valuation| #[trigger] final(cs).admits(e) == old(cs).admits(e),
        final(cs).satisfied() == old(cs).satisfied(),
        old(cs).records() ==> r.at(Valuation::Recorded) == padded_poly(
            lookup_poly(nifs, j as nat),
            (LOOKUP_POLY_DEGREE + 1) as nat,
        ),
        final(cs).layout() == old(cs).layout().more(6),
        r.at(Valuation::Names) == fresh(old(cs).layout().aux, 6),
{
    let poly = match nifs {
        Some(n) => match &n.poly_lookup {
            Some(v) => {
                if j < v.len() {
                    Some(&v[j])
                } else {
                    None
                }
            },
            None => None,
        },
        None => None,
    };
    AllocatedUniPoly::allocate(cs, LOOKUP_POLY_DEGREE, poly)
}

/// The lookup part of a fold's message, for one table.
pub struct AllocatedLookupNIFS<E: Engine> {
    pub poly_lookup: AllocatedUniPoly<E::Scalar>,
    pub comm_inv_w: AllocatedNonnativePoint<E>,
    pub comm_inv_t: AllocatedNonnativePoint<E>,
}

impl<E: Engine> AllocatedLookupNIFS<E> {
    /// The numbers of the message belong to the system.
    pub open spec fn valid(self, cs: ConstraintSystem<E::Scalar>) -> bool {
        &&& self.poly_lookup.valid(cs)
        &&& self.poly_lookup.coeffs@.len() > 0
        &&& self.comm_inv_w.valid(cs)
        &&& self.comm_inv_t.valid(cs)
    }

    /// Adds the lookup part of a message: what it holds for the first table.
    pub fn allocate(
        cs: &mut ConstraintSystem<E::Scalar>,
        nifs: Option<&NIFS<E>>,
    ) -> (r: Result<Self, SynthesisError>)
        requires
            old(cs).wf(),
            lookup_degrees(nifs),
        ensures
            r is Ok,
            old(cs).grows(*final(cs)),
            r->Ok_0.valid(*final(cs)),
            r->Ok_0.poly_lookup.coeffs@.len() == LOOKUP_POLY_DEGREE + 1,
            forall|e: Valuation| #[trigger] final(cs).admits(e) == old(cs).admits(e),
            final(cs).satisfied() == old(cs).satisfied(),
            old(cs).records() ==> {
                &&& r->Ok_0.poly_lookup.at(Valuation::Recorded) == padded_poly(
                    lookup_poly(nifs, 0),
                    (LOOKUP_POLY_DEGREE + 1) as nat,
                )
                &&& r->Ok_0.comm_inv_w.at(Valuation::Recorded) == (match nifs {
                    Some(n) => nth_coordinates::<E>(n.comm_inv_w, 0),
                    None => identity_coordinates(),
                })
                &&& r->Ok_0.comm_inv_t.at(Valuation::Recorded) == (match nifs {
                    Some(n) => nth_coordinates::<E>(n.comm_inv_t, 0),
                    None => identity_coordinates(),
                })
            },
            final(cs).layout() == old(cs).layout().more(24),
            r->Ok_0.poly_lookup.at(Valuation::Names) == fresh(old(cs).layout().aux, 6),
            r->Ok_0.comm_inv_w.at(Valuation::Names) == fresh(
                old(cs).layout().aux + 6,
                POINT_LIMBS as nat,
            ),
            r->Ok_0.comm_inv_t.at(Valuation::Names) == fresh(
                old(cs).layout().aux + 15,
                POINT_LIMBS as nat,
            ),
    {
        let poly_lookup = alloc_nth_poly(cs, nifs, 0);
        let (w, t) = match nifs {
            Some(n) => (n.comm_inv_w.as_ref(), n.comm_inv_t.as_ref()),
            None => (None, None),
        };
        let comm_inv_w = alloc_nth_point(cs, w, 0);
        let comm_inv_t = alloc_nth_point(cs, t, 0);
        Ok(AllocatedLookupNIFS { poly_lookup, comm_inv_w, comm_inv_t })
    }

    /// Checks the round polynomial against the running claim and carries the claim on: the
    /// values at zero and one must add up to the claim, and the new claim is the value at `r_b`
    /// divided by the equality polynomial at `rho` and `r_b`.
    pub fn verify_step(
        &self,
        cs: &mut ConstraintSystem<E::Scalar>,
        rho: &AllocatedNum<E::Scalar>,
        r_b: &AllocatedNum<E::Scalar>,
        t_lookup_running: &AllocatedNum<E::Scalar>,
    ) -> (r: Result<AllocatedNum<E::Scalar>, SynthesisError>)
        requires
            old(cs).wf(),
            self.valid(*old(cs)),
            old(cs).valid(*rho),
            old(cs).valid(*r_b),
            old(cs).valid(*t_lookup_running),
            old(cs).records() ==> eq_at(
                E::Scalar::modulus(),
                rho.at(Valuation::Recorded),
                r_b.at(Valuation::Recorded),
            ) != 0,
        ensures
            r is Ok,
            old(cs).grows(*final(cs)),
            final(cs).valid(r->Ok_0),
            forall|e: Valuation| #[trigger]
                final(cs).admits(e) ==> claim_carried(
                    E::Scalar::modulus(),
                    self.poly_lookup.at(e),
                    eq_at(E::Scalar::modulus(), rho.at(e), r_b.at(e)),
                    r_b.at(e),
                    r->Ok_0.at(e),
                ),
            forall|w: spec_fn(Variable) -> int| #[trigger]
                final(cs).met_by(w) ==> claim_met(
                    E::Scalar::modulus(),
                    self.poly_lookup.at(Valuation::Assigned(w)),
                    t_lookup_running.at(Valuation::Assigned(w)),
                ),
            old(cs).records() ==> (final(cs).satisfied() <==> old(cs).satisfied() && claim_met(
                E::Scalar::modulus(),
                self.poly_lookup.at(Valuation::Recorded),
                t_lookup_running.at(Valuation::Recorded),
            )),
            final(cs).layout() == lay_verify_step(
                E::Scalar::modulus(),
                old(cs).layout(),
                self.poly_lookup.at(Valuation::Names),
                rho.at(Valuation::Names),
                r_b.at(Valuation::Names),
                t_lookup_running.at(Valuation::Names),
            ),
            r->Ok_0.at(Valuation::Names) == verify_step_name(
                E::Scalar::modulus(),
                old(cs).layout(),
                self.poly_lookup.at(Valuation::Names),
                rho.at(Valuation::Names),
                r_b.at(Valuation::Names),
                t_lookup_running.at(Valuation::Names),
            ),
    {
        self.poly_lookup.check_poly_zero_poly_one_with(cs, t_lookup_running);
        let ghost s1 = *cs;
        let eq = alloc_eq(cs, rho, r_b);
        let ghost s2 = *cs;
        proof {
            if cs.records() {
                assert(cs.admits(Valuation::Recorded));
            }
        }
        let t_out = carry_claim(cs, &self.poly_lookup, &eq, r_b);
        proof {
            assert forall|e: Valuation| #[trigger] cs.admits(e) implies claim_carried(
                E::Scalar::modulus(),
                self.poly_lookup.at(e),
                eq_at(E::Scalar::modulus(), rho.at(e), r_b.at(e)),
                r_b.at(e),
                t_out.at(e),
            ) by {
                assert(s2.admits(e));
            }
            assert forall|w: spec_fn(Variable) -> int| #[trigger] cs.met_by(w) implies claim_met(
                E::Scalar::modulus(),
                self.poly_lookup.at(Valuation::Assigned(w)),
                t_lookup_running.at(Valuation::Assigned(w)),
            ) by {
                assert(cs.admits(Valuation::Assigned(w)));
                assert(s2.admits(Valuation::Assigned(w)));
                assert(s1.admits(Valuation::Assigned(w)));
                assert(s1.met_by(w));
            }
        }
        Ok(t_out)
    }

    /// Takes in the commitments to the inverses of the witness and of the table.
    pub fn absorb_inv_comms_in_ro(
        &self,
        cs: &mut ConstraintSystem<E::Scalar>,
        ro: &mut RO2Circuit<E>,
    ) -> (r: Result<(), SynthesisError>)
        requires
            old(cs).wf(),
            self.valid(*old(cs)),
            old(ro).valid(*old(cs)),
        ensures
            r is Ok,
            *final(cs) == *old(cs),
            final(ro).valid(*old(cs)),
            forall|e: Valuation| #[trigger]
                final(ro).at(e) == old(ro).at(e) + absorbs(
                    self.comm_inv_w.at(e) + self.comm_inv_t.at(e),
                ),
    {
        self.comm_inv_w.absorb_in_ro(ro);
        let ghost middle = *ro;
        self.comm_inv_t.absorb_in_ro(ro);
        proof {
            assert(middle.valid(*cs));
            assert forall|e: Valuation| #[trigger] ro.at(e) == old(ro).at(e) + absorbs(
                self.comm_inv_w.at(e) + self.comm_inv_t.at(e),
            ) by {
                assert(middle.at(e) == old(ro).at(e) + absorbs(self.comm_inv_w.at(e)));
                assert(ro.at(e) =~= old(ro).at(e) + absorbs(
                    self.comm_inv_w.at(e) + self.comm_inv_t.at(e),
                ));
            }
        }
        Ok(())
    }

    /// Takes in the round polynomial.
    pub fn absorb_poly_in_ro(&self, ro: &mut RO2Circuit<E>)
        ensures
            forall|cs: ConstraintSystem<E::Scalar>|
                old(ro).valid(cs) && self.valid(cs) ==> #[trigger] final(ro).valid(cs),
            forall|e: Valuation| #[trigger]
                final(ro).at(e) == old(ro).at(e) + absorbs(self.poly_lookup.at(e)),
    {
        absorb_nums(ro, &self.poly_lookup.coeffs);
    }
}

/// The lookup part of a fold's message, for several tables, with the folded commitments of the
/// tables that the prover offers.
pub struct AllocatedLookupNIFSMultiTable<E: Engine> {
    pub poly_lookup: Vec<AllocatedUniPoly<E::Scalar>>,
    pub comm_inv_w: Vec<AllocatedNonnativePoint<E>>,
    pub comm_inv_t: Vec<AllocatedNonnativePoint<E>>,
    pub comm_L_fold: Vec<AllocatedNonnativePoint<E>>,
    pub comm_ts_fold: Vec<AllocatedNonnativePoint<E>>,
}

/// The polynomials of a sequence belong to the system, and none is empty.
pub open spec fn polys_valid<F: PrimeField>(
    cs: ConstraintSystem<F>,
    v: Seq<AllocatedUniPoly<F>>,
) -> bool {
    forall|i: int|
        0 <= i < v.len() ==> (#[trigger] v[i]).valid(cs) && v[i].coeffs@.len() > 0
}

/// The polynomials of a sequence under a valuation.
pub open spec fn polys_at<F: PrimeField>(v: Seq<AllocatedUniPoly<F>>, e: Valuation) -> Seq<
    Seq<int>,
> {
    Seq::new(v.len(), |i: int| v[i].at(e))
}

/// The first `k` coordinates of a vector of group elements that may be missing or too short.
pub open spec fn first_coordinates<E: Engine>(v: Option<Vec<E::GE>>, k: nat) -> Seq<Seq<int>> {
    Seq::new(k, |j: int| nth_coordinates::<E>(v, j as nat))
}

fn alloc_first_points<E: Engine>(
    cs: &mut ConstraintSystem<E::Scalar>,
    v: &Option<Vec<E::GE>>,
    k: usize,
) -> (r: Vec<AllocatedNonnativePoint<E>>)
    requires
        old(cs).wf(),
    ensures
        old(cs).grows(*final(cs)),
        points_valid(*final(cs), r@),
        r@.len() == k,
        forall|e: Valuation| #[trigger] final(cs).admits(e) == old(cs).admits(e),
        final(cs).satisfied() == old(cs).satisfied(),
        old(cs).records() ==> points_at(r@, Valuation::Recorded) == first_coordinates::<E>(
            *v,
            k as nat,
        ),
        final(cs).layout() == old(cs).layout().more(9 * k as nat),
        points_at(r@, Valuation::Names) == fresh_points(old(cs).layout().aux, k as nat),
{
    let ghost before = *cs;
    let mut r: Vec<AllocatedNonnativePoint<E>> = Vec::new();
    let mut i: usize = 0;
    while i < k
        invariant
            i <= k,
            before.wf(),
            before.grows(*cs),
            r@.len() == i,
            points_valid(*cs, r@),
            forall|e: Valuation| #[trigger] cs.admits(e) == before.admits(e),
            cs.satisfied() == before.satisfied(),
            before.records() ==> forall|j: int|
                0 <= j < i ==> (#[trigger] r@[j]).at(Valuation::Recorded) == nth_coordinates::<E>(
                    *v,
                    j as nat,
                ),
            cs.layout() == before.layout().more(9 * i as nat),
            forall|j: int|
                0 <= j < i ==> (#[trigger] r@[j]).at(Valuation::Names) == fresh(
                    (before.layout().aux + 9 * j) as nat,
                    POINT_LIMBS as nat,
                ),
        decreases k - i,
    {
        let x = alloc_nth_point(cs, v.as_ref(), i);
        r.push(x);
        i = i + 1;
    }
    proof {
        assert(points_at(r@, Valuation::Names) =~= fresh_points(before.layout().aux, k as nat));
        if before.records() {
            assert(points_at(r@, Valuation::Recorded) =~= first_coordinates::<E>(*v, k as nat));
        }
    }
    r
}

/// What a message holds as a vector of group elements; nothing where there is no message.
pub open spec fn message_points<E: Engine>(
    nifs: Option<&NIFS<E>>,
    which: spec_fn(NIFS<E>) -> Option<Vec<E::GE>>,
) -> Option<Vec<E::GE>> {
    match nifs {
        Some(n) => which(*n),
        None => None,
    }
}

/// The names of round polynomials whose coefficients are added one after the other.
pub open spec fn fresh_polys(start: nat, k: nat) -> Seq<Seq<int>> {
    Seq::new(k, |i: int| fresh((start + 6 * i) as nat, 6))
}

impl<E: Engine> AllocatedLookupNIFSMultiTable<E> {
    /// The numbers of the message are added one after the other, for `k` tables.
    pub open spec fn names_fresh(self, start: nat, k: nat) -> bool {
        let e = Valuation::Names;
        &&& polys_at(self.poly_lookup@, e) == fresh_polys(start, k)
        &&& points_at(self.comm_inv_w@, e) == fresh_points(start + 6 * k, k)
        &&& points_at(self.comm_inv_t@, e) == fresh_points(start + 15 * k, k)
        &&& points_at(self.comm_L_fold@, e) == fresh_points(start + 24 * k, k)
        &&& points_at(self.comm_ts_fold@, e) == fresh_points(start + 33 * k, k)
    }

    /// The numbers of the message belong to the system.
    pub open spec fn valid(self, cs: ConstraintSystem<E::Scalar>) -> bool {
        &&& polys_valid(cs, self.poly_lookup@)
        &&& points_valid(cs, self.comm_inv_w@)
        &&& points_valid(cs, self.comm_inv_t@)
        &&& points_valid(cs, self.comm_L_fold@)
        &&& points_valid(cs, self.comm_ts_fold@)
    }

    /// Adds the lookup part of a message for `k` tables.
    pub fn allocate(
        cs: &mut ConstraintSystem<E::Scalar>,
        nifs: Option<&NIFS<E>>,
        k: usize,
    ) -> (r: Result<Self, SynthesisError>)
        requires
            old(cs).wf(),
            lookup_degrees(nifs),
        ensures
            r is Ok,
            old(cs).grows(*final(cs)),
            r->Ok_0.valid(*final(cs)),
            r->Ok_0.poly_lookup@.len() == k,
            r->Ok_0.comm_inv_w@.len() == k,
            r->Ok_0.comm_inv_t@.len() == k,
            r->Ok_0.comm_L_fold@.len() == k,
            r->Ok_0.comm_ts_fold@.len() == k,
            forall|j: int|
                0 <= j < k ==> (#[trigger] r->Ok_0.poly_lookup@[j]).coeffs@.len()
                    == LOOKUP_POLY_DEGREE + 1,
            final(cs).layout() == old(cs).layout().more(42 * k as nat),
            r->Ok_0.names_fresh(old(cs).layout().aux, k as nat),
            forall|e: Valuation| #[trigger] final(cs).admits(e) == old(cs).admits(e),
            final(cs).satisfied() == old(cs).satisfied(),
            old(cs).records() ==> {
                let e = Valuation::Recorded;
                &&& polys_at(r->Ok_0.poly_lookup@, e) == Seq::new(
                    k as nat,
                    |j: int|
                        padded_poly(
                            lookup_poly(nifs, j as nat),
                            (LOOKUP_POLY_DEGREE + 1) as nat,
                        ),
                )
                &&& points_at(r->Ok_0.comm_inv_w@, e) == first_coordinates::<E>(
                    message_points(nifs, |n: NIFS<E>| n.comm_inv_w),
                    k as nat,
                )
                &&& points_at(r->Ok_0.comm_inv_t@, e) == first_coordinates::<E>(
                    message_points(nifs, |n: NIFS<E>| n.comm_inv_t),
                    k as nat,
                )
                &&& points_at(r->Ok_0.comm_L_fold@, e) == first_coordinates::<E>(
                    message_points(nifs, |n: NIFS<E>| n.comm_L_fold_per_table),
                    k as nat,
                )
                &&& points_at(r->Ok_0.comm_ts_fold@, e) == first_coordinates::<E>(
                    message_points(nifs, |n: NIFS<E>| n.comm_ts_fold_per_table),
                    k as nat,
                )
            },
    {
        let ghost before = *cs;
        let mut poly_lookup: Vec<AllocatedUniPoly<E::Scalar>> = Vec::new();
        let mut i: usize = 0;
        while i < k
            invariant
                i <= k,
                before.wf(),
                before.grows(*cs),
                lookup_degrees(nifs),
                poly_lookup@.len() == i,
                polys_valid(*cs, poly_lookup@),
                forall|e: Valuation| #[trigger] cs.admits(e) == before.admits(e),
                cs.satisfied() == before.satisfied(),
                before.records() ==> forall|j: int|
                    0 <= j < i ==> (#[trigger] poly_lookup@[j]).at(Valuation::Recorded)
                        == padded_poly(
                        lookup_poly(nifs, j as nat),
                        (LOOKUP_POLY_DEGREE + 1) as nat,
                    ),
                cs.layout() == before.layout().more(6 * i as nat),
                forall|j: int|
                    0 <= j < i ==> (#[trigger] poly_lookup@[j]).at(Valuation::Names) == fresh(
                        (before.layout().aux + 6 * j) as nat,
                        6,
                    ),
                forall|j: int|
                    0 <= j < i ==> (#[trigger] poly_lookup@[j]).coeffs@.len()
                        == LOOKUP_POLY_DEGREE + 1,
            decreases k - i,
        {
            let x = alloc_nth_poly(cs, nifs, i);
            poly_lookup.push(x);
            i = i + 1;
        }
        let ghost s1 = *cs;
        let (w, t, l, s) = match nifs {
            Some(n) => (
                &n.comm_inv_w,
                &n.comm_inv_t,
                &n.comm_L_fold_per_table,
                &n.comm_ts_fold_per_table,
            ),
            None => (&None, &None, &None, &None),
        };
        let comm_inv_w = alloc_first_points(cs, w, k);
        let comm_inv_t = alloc_first_points(cs, t, k);
        let comm_L_fold = alloc_first_points(cs, l, k);
        let comm_ts_fold = alloc_first_points(cs, s, k);
        let r = AllocatedLookupNIFSMultiTable {
            poly_lookup,
            comm_inv_w,
            comm_inv_t,
            comm_L_fold,
            comm_ts_fold,
        };
        proof {
            assert(polys_at(r.poly_lookup@, Valuation::Names) =~= fresh_polys(
                before.layout().aux,
                k as nat,
            ));
            if before.records() {
                assert(polys_at(poly_lookup@, Valuation::Recorded) =~= Seq::new(
                    k as nat,
                    |j: int|
                        padded_poly(
                            lookup_poly(nifs, j as nat),
                            (LOOKUP_POLY_DEGREE + 1) as nat,
                        ),
                ));
            }
        }
        Ok(r)
    }

    /// The number of tables.
    pub fn k(&self) -> (r: usize)
        ensures
            r == self.poly_lookup@.len(),
    {
        self.poly_lookup.len()
    }
}

/// The public side of the lookups of a step in one table.
pub struct AllocatedLookupPayloadPublicMultiTable<E: Engine> {
    pub comm_L: AllocatedNonnativePoint<E>,
    pub comm_values: Vec<AllocatedNonnativePoint<E>>,
    pub comm_ts: AllocatedNonnativePoint<E>,
}

/// What is allocated for a payload: the payload itself, or neutral commitments.
pub open spec fn payload_val<E: Engine>(
    payload: Option<&LookupPayloadPublicMultiTable<E>>,
) -> TableVal {
    match payload {
        Some(b) => b@,
        None => TableVal {
            comm_L: identity_coordinates(),
            comm_values: Seq::empty(),
            comm_ts: identity_coordinates(),
        },
    }
}

/// The names of the public side of the lookups in a table, added one after the other.
pub open spec fn fresh_table(start: nat, columns: nat) -> TableVal {
    TableVal {
        comm_L: fresh(start, POINT_LIMBS as nat),
        comm_values: fresh_points(start + 9, columns),
        comm_ts: fresh(start + 9 + 9 * columns, POINT_LIMBS as nat),
    }
}

impl<E: Engine> AllocatedLookupPayloadPublicMultiTable<E> {
    /// The payload under a valuation.
    pub open spec fn at(self, e: Valuation) -> TableVal {
        TableVal {
            comm_L: self.comm_L.at(e),
            comm_values: points_at(self.comm_values@, e),
            comm_ts: self.comm_ts.at(e),
        }
    }

    /// The numbers of the payload belong to the system.
    pub open spec fn valid(self, cs: ConstraintSystem<E::Scalar>) -> bool {
        &&& self.comm_L.valid(cs)
        &&& points_valid(cs, self.comm_values@)
        &&& self.comm_ts.valid(cs)
    }

    /// Adds a payload with as many value columns as it has; none where it is not given.
    pub fn allocate(
        cs: &mut ConstraintSystem<E::Scalar>,
        payload: Option<&LookupPayloadPublicMultiTable<E>>,
    ) -> (r: Result<Self, SynthesisError>)
        requires
            old(cs).wf(),
        ensures
            r is Ok,
            old(cs).grows(*final(cs)),
            r->Ok_0.valid(*final(cs)),
            r->Ok_0.comm_values@.len() == payload_val(payload).comm_values.len(),
            forall|e: Valuation| #[trigger] final(cs).admits(e) == old(cs).admits(e),
            final(cs).satisfied() == old(cs).satisfied(),
            old(cs).records() ==> r->Ok_0.at(Valuation::Recorded) == payload_val(payload),
            final(cs).layout() == old(cs).layout().more(
                18 + 9 * payload_val(payload).comm_values.len(),
            ),
            r->Ok_0.at(Valuation::Names) == fresh_table(
                old(cs).layout().aux,
                payload_val(payload).comm_values.len(),
            ),
    {
        match payload {
            Some(b) => {
                let comm_L = AllocatedNonnativePoint::allocate(cs, Some(&b.comm_L));
                let comm_values = alloc_points(cs, &b.comm_values);
                let comm_ts = AllocatedNonnativePoint::allocate(cs, Some(&b.comm_ts));
                Ok(AllocatedLookupPayloadPublicMultiTable { comm_L, comm_values, comm_ts })
            },
            None => {
                let comm_L = AllocatedNonnativePoint::allocate(cs, None);
                let comm_values = alloc_missing_points(cs, 0);
                let comm_ts = AllocatedNonnativePoint::allocate(cs, None);
                let r = AllocatedLookupPayloadPublicMultiTable { comm_L, comm_values, comm_ts };
                proof {
                    if cs.records() {
                        assert(r.at(Valuation::Recorded).comm_values =~= Seq::empty());
                    }
                }
                Ok(r)
            },
        }
    }
}

} // verus!
