//! The lookup side of a fold as a one-round sumcheck.

use crate::circuit::lookup::{claim_carried, eq_at};
use crate::circuit::relation::line;
use crate::commitment::{copy_scalars, CommitmentKey};
use crate::degree::{lemma_poly_add, lemma_poly_line, lemma_poly_pad, poly_of};
use crate::engine::{Engine, Group};
use crate::errors::NovaError;
use crate::field::{
    is_prime, lemma_cancel, lemma_cong_add, lemma_cong_diff, lemma_cong_mul, lemma_cong_sub,
    lemma_inverse_exists, lemma_reduced, lemma_residue, PrimeField,
};
use crate::par::par_map;
use crate::poly::{claim_met, peval, vals, UniPoly};
use crate::relation::FoldedInstance;
use crate::side::{
    between, cell, cells_vanish, five_evals, law_between_mixes, law_side_claim_sum, law_total_sum,
    lemma_between_ends, lemma_carried_claim, lemma_round_polynomial, lemma_rows_poly,
    lemma_rows_vanish, lemma_total_between, line_at, ones, round_from_evals, round_poly, rows,
    side_between, side_claim, side_shape, sides_alike, small, total, total_of, weightless, Side,
    SideVal,
};
use crate::sums::sum;
use vstd::prelude::*;

verus! {

/// Each number of the first sequence plus `r`, inverted: `v[i] + r` times the result is one.
pub open spec fn inverted_plus_r(p: int, v: Seq<int>, r: int, inv: Seq<int>) -> bool {
    &&& inv.len() == v.len()
    &&& forall|i: int|
        0 <= i < v.len() ==> 0 <= #[trigger] inv[i] < p && ((v[i] + r) * inv[i]) % p == 1
}

/// Quotients of `m[i]` by `v[i] + r`: `v[i] + r` times the quotient is `m[i]`.
pub open spec fn quotients_plus_r(
    p: int,
    v: Seq<int>,
    m: Seq<int>,
    r: int,
    q: Seq<int>,
) -> bool {
    &&& q.len() == v.len()
    &&& forall|i: int|
        0 <= i < v.len() ==> 0 <= #[trigger] q[i] < p && ((v[i] + r) * q[i]) % p == m[i] % p
}

/// No number of the sequence is the opposite of `r`.
pub open spec fn invertible_plus_r(p: int, v: Seq<int>, r: int) -> bool {
    forall|i: int| 0 <= i < v.len() ==> #[trigger] (v[i] + r) % p != 0
}

fn invert_cell<F: PrimeField>(x: F, r: F) -> (y: Option<F>)
    ensures
        y is None <==> (x.val() + r.val()) % F::modulus() == 0,
        y is Some ==> ((x.val() + r.val()) * y->Some_0.val()) % F::modulus() == 1,
{
    let s = x.plus(r);
    let y = s.invert();
    proof {
        let p = F::modulus();
        F::lemma_modulus();
        lemma_residue(p, x.val() + r.val());
        if y is Some {
            let i = y->Some_0.val();
            lemma_cong_mul(p, s.val(), i, x.val() + r.val(), i);
        }
    }
    y
}

/// The inverses of `v[i] + r`; an error where one of them is zero.
pub fn batch_invert_plus_r<F: PrimeField>(v: &[F], r: &F) -> (res: Result<Vec<F>, NovaError>)
    ensures
        res is Ok <==> invertible_plus_r(F::modulus(), vals(v@), r.val()),
        res is Err ==> res == Err::<Vec<F>, NovaError>(NovaError::InvalidInversion),
        res is Ok ==> inverted_plus_r(F::modulus(), vals(v@), r.val(), vals(res->Ok_0@)),
{
    let n: usize = v.len();
    let f = |i: usize| -> (y: Option<F>)
        requires
            i < n,
            n == v@.len(),
        ensures
            y is None <==> (v@[i as int].val() + r.val()) % F::modulus() == 0,
            y is Some ==> ((v@[i as int].val() + r.val()) * y->Some_0.val()) % F::modulus() == 1,
        { invert_cell(v[i], *r) };
    let cells = par_map(n, f);
    let ghost p = F::modulus();
    proof {
        assert forall|i: int| 0 <= i < n implies {
            &&& (#[trigger] cells@[i]) is None <==> (v@[i].val() + r.val()) % p == 0
            &&& cells@[i] is Some ==> ((v@[i].val() + r.val()) * cells@[i]->Some_0.val()) % p == 1
        } by {
            assert(f.ensures((i as usize,), cells@[i as usize as int]));
        }
    }
    let mut out: Vec<F> = Vec::new();
    let mut i: usize = 0;
    while i < n
        invariant
            i <= n,
            n == v@.len(),
            n == cells@.len(),
            p == F::modulus(),
            out@.len() == i,
            forall|j: int|
                0 <= j < n ==> {
                    &&& (#[trigger] cells@[j]) is None <==> (v@[j].val() + r.val()) % p == 0
                    &&& cells@[j] is Some ==> ((v@[j].val() + r.val())
                        * cells@[j]->Some_0.val()) % p == 1
                },
            forall|j: int|
                0 <= j < i ==> (#[trigger] cells@[j]) is Some && out@[j] == cells@[j]->Some_0,
        decreases n - i,
    {
        match cells[i] {
            Some(y) => out.push(y),
            None => {
                proof {
                    assert((vals(v@)[i as int] + r.val()) % p == 0);
                }
                return Err(NovaError::InvalidInversion);
            },
        }
        i = i + 1;
    }
    proof {
        assert forall|j: int| 0 <= j < n implies #[trigger] (vals(v@)[j] + r.val()) % p != 0 by {
            assert(cells@[j] is Some);
        }
        assert forall|j: int| 0 <= j < n implies 0 <= #[trigger] vals(out@)[j] < p && ((vals(v@)[j]
            + r.val()) * vals(out@)[j]) % p == 1 by {
            assert(cells@[j] is Some);
            F::lemma_val(out@[j]);
        }
    }
    Ok(out)
}

/// The claim of a lookup argument: the weighted sums of both sides, and the difference of the
/// sums of the inverses.
pub open spec fn lookup_claim(p: int, w: SideVal, t: SideVal, r: int) -> int {
    (side_claim(w, r) + side_claim(t, r) + (total(w.inv) - total(t.inv))) % p
}

/// A polynomial in many variables that is linear in each, by its values on the corners of a cube.
pub struct MultilinearPolynomial<F: PrimeField> {
    /// The values.
    pub Z: Vec<F>,
}

impl<F: PrimeField> MultilinearPolynomial<F> {
    /// The polynomial with the given values.
    pub fn new(Z: Vec<F>) -> (r: Self)
        ensures
            r.Z == Z,
    {
        MultilinearPolynomial { Z }
    }

    /// The number of corners.
    pub fn len(&self) -> (r: usize)
        ensures
            r == self.Z@.len(),
    {
        self.Z.len()
    }
}

/// The lookup side of a fold: the witnesses and tables of the running instance (1) and of the
/// instance that is folded in (2), with the inverses that `r` gives rise to.
pub struct LookupSumcheckInstance<E: Engine> {
    pub w1_poly: MultilinearPolynomial<E::Scalar>,
    pub inv_w1_poly: MultilinearPolynomial<E::Scalar>,
    pub eq_w1_left: Vec<E::Scalar>,
    pub eq_w1_right: Vec<E::Scalar>,
    pub t1_poly: MultilinearPolynomial<E::Scalar>,
    pub ts1_poly: MultilinearPolynomial<E::Scalar>,
    pub inv_t1_poly: MultilinearPolynomial<E::Scalar>,
    pub eq_t1_left: Vec<E::Scalar>,
    pub eq_t1_right: Vec<E::Scalar>,
    pub w2_poly: MultilinearPolynomial<E::Scalar>,
    pub inv_w2_poly: MultilinearPolynomial<E::Scalar>,
    pub eq_w2_left: Vec<E::Scalar>,
    pub eq_w2_right: Vec<E::Scalar>,
    pub t2_poly: MultilinearPolynomial<E::Scalar>,
    pub ts2_poly: MultilinearPolynomial<E::Scalar>,
    pub inv_t2_poly: MultilinearPolynomial<E::Scalar>,
    pub eq_t2_left: Vec<E::Scalar>,
    pub eq_t2_right: Vec<E::Scalar>,
    pub r: E::Scalar,
}

impl<E: Engine> LookupSumcheckInstance<E> {
    /// The witness side of the running instance.
    pub open spec fn w1(self) -> SideVal {
        SideVal {
            eq_left: vals(self.eq_w1_left@),
            eq_right: vals(self.eq_w1_right@),
            inv: vals(self.inv_w1_poly.Z@),
            base: vals(self.w1_poly.Z@),
            num: ones(self.inv_w1_poly.Z@.len()),
        }
    }

    /// The witness side of the instance that is folded in.
    pub open spec fn w2(self) -> SideVal {
        SideVal {
            eq_left: vals(self.eq_w2_left@),
            eq_right: vals(self.eq_w2_right@),
            inv: vals(self.inv_w2_poly.Z@),
            base: vals(self.w2_poly.Z@),
            num: ones(self.inv_w2_poly.Z@.len()),
        }
    }

    /// The table side of the running instance.
    pub open spec fn t1(self) -> SideVal {
        SideVal {
            eq_left: vals(self.eq_t1_left@),
            eq_right: vals(self.eq_t1_right@),
            inv: vals(self.inv_t1_poly.Z@),
            base: vals(self.t1_poly.Z@),
            num: vals(self.ts1_poly.Z@),
        }
    }

    /// The table side of the instance that is folded in.
    pub open spec fn t2(self) -> SideVal {
        SideVal {
            eq_left: vals(self.eq_t2_left@),
            eq_right: vals(self.eq_t2_right@),
            inv: vals(self.inv_t2_poly.Z@),
            base: vals(self.t2_poly.Z@),
            num: vals(self.ts2_poly.Z@),
        }
    }

    /// The sides of the two instances have the same shapes.
    pub open spec fn wf(self) -> bool {
        sides_alike(self.w1(), self.w2()) && sides_alike(self.t1(), self.t2())
    }

    /// The witness side between the instances.
    pub open spec fn w_at(self, x: int) -> SideVal {
        side_between(E::Scalar::modulus(), self.w1(), self.w2(), x)
    }

    /// The table side between the instances.
    pub open spec fn t_at(self, x: int) -> SideVal {
        side_between(E::Scalar::modulus(), self.t1(), self.t2(), x)
    }

    /// The claim of the instance at `x` between the two instances.
    pub open spec fn claim_at(self, x: int) -> int {
        lookup_claim(E::Scalar::modulus(), self.w_at(x), self.t_at(x), self.r.val())
    }

    /// Takes up the two instances. The inverses of the running instance are given; those of the
    /// other are computed, with the multiplicities in the numerators on the table side, and
    /// committed to without a blinding.
    pub fn new(
        ck: &CommitmentKey<E>,
        witness_1: &[E::Scalar],
        inv_w_1: &[E::Scalar],
        table_1: &[E::Scalar],
        multiplicities_1: &[E::Scalar],
        inv_t_1: &[E::Scalar],
        eq_w1_left: Vec<E::Scalar>,
        eq_w1_right: Vec<E::Scalar>,
        eq_t1_left: Vec<E::Scalar>,
        eq_t1_right: Vec<E::Scalar>,
        witness_2: &[E::Scalar],
        table_2: &[E::Scalar],
        multiplicities_2: &[E::Scalar],
        eq_w2_left: Vec<E::Scalar>,
        eq_w2_right: Vec<E::Scalar>,
        eq_t2_left: Vec<E::Scalar>,
        eq_t2_right: Vec<E::Scalar>,
        r: E::Scalar,
    ) -> (res: Result<(Self, E::GE, E::GE), NovaError>)
        requires
            witness_1@.len() == eq_w1_left@.len() * eq_w1_right@.len(),
            inv_w_1@.len() == witness_1@.len(),
            table_1@.len() == eq_t1_left@.len() * eq_t1_right@.len(),
            multiplicities_1@.len() == table_1@.len(),
            inv_t_1@.len() == table_1@.len(),
            eq_w2_left@.len() == eq_w1_left@.len(),
            eq_w2_right@.len() == eq_w1_right@.len(),
            eq_t2_left@.len() == eq_t1_left@.len(),
            eq_t2_right@.len() == eq_t1_right@.len(),
            witness_2@.len() == witness_1@.len(),
            table_2@.len() == table_1@.len(),
            multiplicities_2@.len() == table_2@.len(),
            witness_2@.len() <= ck.ck@.len(),
            table_2@.len() <= ck.ck@.len(),
        ensures
            res is Ok <==> invertible_plus_r(E::Scalar::modulus(), vals(witness_2@), r.val())
                && invertible_plus_r(E::Scalar::modulus(), vals(table_2@), r.val()),
            res is Err ==> res == Err::<(Self, E::GE, E::GE), NovaError>(
                NovaError::InvalidInversion,
            ),
            res is Ok ==> {
                let p = E::Scalar::modulus();
                let inst = res->Ok_0.0;
                &&& inst.wf()
                &&& inst.r == r
                &&& inst.w1_poly.Z@ == witness_1@
                &&& inst.inv_w1_poly.Z@ == inv_w_1@
                &&& inst.t1_poly.Z@ == table_1@
                &&& inst.ts1_poly.Z@ == multiplicities_1@
                &&& inst.inv_t1_poly.Z@ == inv_t_1@
                &&& inst.eq_w1_left == eq_w1_left
                &&& inst.eq_w1_right == eq_w1_right
                &&& inst.eq_t1_left == eq_t1_left
                &&& inst.eq_t1_right == eq_t1_right
                &&& inst.w2_poly.Z@ == witness_2@
                &&& inst.t2_poly.Z@ == table_2@
                &&& inst.ts2_poly.Z@ == multiplicities_2@
                &&& inst.eq_w2_left == eq_w2_left
                &&& inst.eq_w2_right == eq_w2_right
                &&& inst.eq_t2_left == eq_t2_left
                &&& inst.eq_t2_right == eq_t2_right
                &&& inverted_plus_r(p, vals(witness_2@), r.val(), vals(inst.inv_w2_poly.Z@))
                &&& quotients_plus_r(
                    p,
                    vals(table_2@),
                    vals(multiplicities_2@),
                    r.val(),
                    vals(inst.inv_t2_poly.Z@),
                )
                &&& res->Ok_0.1.log() == ck.commitment(vals(inst.inv_w2_poly.Z@), 0)
                &&& res->Ok_0.2.log() == ck.commitment(vals(inst.inv_t2_poly.Z@), 0)
            },
    {
        let ghost p = E::Scalar::modulus();
        let inv_w2 = batch_invert_plus_r(witness_2, &r)?;
        let inv_t2_raw = batch_invert_plus_r(table_2, &r)?;
        let n: usize = inv_t2_raw.len();
        let raw = &inv_t2_raw;
        let f = |i: usize| -> (v: E::Scalar)
            requires
                i < n,
                n == raw@.len(),
                n == multiplicities_2@.len(),
            ensures
                v.val() == (raw@[i as int].val() * multiplicities_2@[i as int].val())
                    % E::Scalar::modulus(),
            { raw[i].times(multiplicities_2[i]) };
        let inv_t2 = par_map(n, f);
        proof {
            E::Scalar::lemma_modulus();
            assert forall|i: int| 0 <= i < n implies 0 <= #[trigger] vals(inv_t2@)[i] < p && ((
            vals(table_2@)[i] + r.val()) * vals(inv_t2@)[i]) % p == vals(multiplicities_2@)[i]
                % p by {
                assert(f.ensures((i as usize,), inv_t2@[i as usize as int]));
                E::Scalar::lemma_val(inv_t2@[i]);
                let a = vals(table_2@)[i] + r.val();
                let b = vals(inv_t2_raw@)[i];
                let m = vals(multiplicities_2@)[i];
                lemma_residue(p, b * m);
                lemma_cong_mul(p, a, inv_t2@[i].val(), a, b * m);
                assert(a * (b * m) == (a * b) * m) by (nonlinear_arith);
                lemma_reduced(p, 1);
                lemma_cong_mul(p, a * b, m, 1, m);
                assert(1 * m == m);
            }
        }
        let zero = E::Scalar::zero();
        let comm_inv_w2 = ck.commit(&inv_w2, &zero);
        let comm_inv_t2 = ck.commit(&inv_t2, &zero);
        let inst = LookupSumcheckInstance {
            w1_poly: MultilinearPolynomial::new(copy_scalars(witness_1)),
            inv_w1_poly: MultilinearPolynomial::new(copy_scalars(inv_w_1)),
            eq_w1_left,
            eq_w1_right,
            t1_poly: MultilinearPolynomial::new(copy_scalars(table_1)),
            ts1_poly: MultilinearPolynomial::new(copy_scalars(multiplicities_1)),
            inv_t1_poly: MultilinearPolynomial::new(copy_scalars(inv_t_1)),
            eq_t1_left,
            eq_t1_right,
            w2_poly: MultilinearPolynomial::new(copy_scalars(witness_2)),
            inv_w2_poly: MultilinearPolynomial::new(inv_w2),
            eq_w2_left,
            eq_w2_right,
            t2_poly: MultilinearPolynomial::new(copy_scalars(table_2)),
            ts2_poly: MultilinearPolynomial::new(copy_scalars(multiplicities_2)),
            inv_t2_poly: MultilinearPolynomial::new(inv_t2),
            eq_t2_left,
            eq_t2_right,
            r,
        };
        Ok((inst, comm_inv_w2, comm_inv_t2))
    }

    /// The weighted sums of the witness side at the five points.
    pub fn compute_a_evals(&self) -> (v: (E::Scalar, E::Scalar, E::Scalar, E::Scalar, E::Scalar))
        requires
            self.wf(),
        ensures
            five_evals(v, |x: int| side_claim(self.w_at(x), self.r.val())),
    {
        let side = Side {
            eq_left_1: &self.eq_w1_left,
            eq_left_2: &self.eq_w2_left,
            eq_right_1: &self.eq_w1_right,
            eq_right_2: &self.eq_w2_right,
            inv_1: &self.inv_w1_poly.Z,
            inv_2: &self.inv_w2_poly.Z,
            base_1: &self.w1_poly.Z,
            base_2: &self.w2_poly.Z,
            num: None,
        };
        side.evals(self.r)
    }

    /// The weighted sums of the table side at the five points.
    pub fn compute_b_evals(&self) -> (v: (E::Scalar, E::Scalar, E::Scalar, E::Scalar, E::Scalar))
        requires
            self.wf(),
        ensures
            five_evals(v, |x: int| side_claim(self.t_at(x), self.r.val())),
    {
        let side = Side {
            eq_left_1: &self.eq_t1_left,
            eq_left_2: &self.eq_t2_left,
            eq_right_1: &self.eq_t1_right,
            eq_right_2: &self.eq_t2_right,
            inv_1: &self.inv_t1_poly.Z,
            inv_2: &self.inv_t2_poly.Z,
            base_1: &self.t1_poly.Z,
            base_2: &self.t2_poly.Z,
            num: Some((&self.ts1_poly.Z, &self.ts2_poly.Z)),
        };
        side.evals(self.r)
    }

    /// The differences of the sums of the inverses at the five points.
    pub fn compute_c_evals(&self) -> (v: (E::Scalar, E::Scalar, E::Scalar, E::Scalar, E::Scalar))
        requires
            self.wf(),
        ensures
            five_evals(v, |x: int| total(self.w_at(x).inv) - total(self.t_at(x).inv)),
    {
        let ghost p = E::Scalar::modulus();
        let ghost claim = |x: int| total(self.w_at(x).inv) - total(self.t_at(x).inv);
        let w1 = total_of(&self.inv_w1_poly.Z);
        let w2 = total_of(&self.inv_w2_poly.Z);
        let t1 = total_of(&self.inv_t1_poly.Z);
        let t2 = total_of(&self.inv_t2_poly.Z);
        let c_at_0 = w1.minus(t1);
        let c_at_1 = w2.minus(t2);
        let v0 = line_at(c_at_0, c_at_1, E::Scalar::zero());
        let v2 = line_at(c_at_0, c_at_1, small::<E::Scalar>(2));
        let v3 = line_at(c_at_0, c_at_1, small::<E::Scalar>(3));
        let v4 = line_at(c_at_0, c_at_1, small::<E::Scalar>(4));
        let v5 = line_at(c_at_0, c_at_1, small::<E::Scalar>(5));
        proof {
            assert forall|x: int| line(p, c_at_0.val(), c_at_1.val(), x) == #[trigger] claim(x)
                % p by {
                self.lemma_inverses(w1.val(), w2.val(), t1.val(), t2.val(), x);
            }
            assert(claim(0) == claim(0) && claim(2) == claim(2) && claim(3) == claim(3));
            assert(claim(4) == claim(4) && claim(5) == claim(5));
        }
        (v0, v2, v3, v4, v5)
    }

    proof fn lemma_inverses(self, w1: int, w2: int, t1: int, t2: int, x: int)
        requires
            self.wf(),
            w1 == total(self.w1().inv) % E::Scalar::modulus(),
            w2 == total(self.w2().inv) % E::Scalar::modulus(),
            t1 == total(self.t1().inv) % E::Scalar::modulus(),
            t2 == total(self.t2().inv) % E::Scalar::modulus(),
        ensures
            line(
                E::Scalar::modulus(),
                (w1 - t1) % E::Scalar::modulus(),
                (w2 - t2) % E::Scalar::modulus(),
                x,
            ) == (total(self.w_at(x).inv) - total(self.t_at(x).inv)) % E::Scalar::modulus(),
    {
        let p = E::Scalar::modulus();
        E::Scalar::lemma_modulus();
        let (sw1, sw2) = (total(self.w1().inv), total(self.w2().inv));
        let (st1, st2) = (total(self.t1().inv), total(self.t2().inv));
        lemma_total_between(p, self.w1().inv, self.w2().inv, x);
        lemma_total_between(p, self.t1().inv, self.t2().inv, x);
        let w = sw1 + x * (sw2 - sw1);
        let t = st1 + x * (st2 - st1);
        lemma_cong_sub(p, total(self.w_at(x).inv), total(self.t_at(x).inv), w, t);
        lemma_residue(p, sw1);
        lemma_residue(p, sw2);
        lemma_residue(p, st1);
        lemma_residue(p, st2);
        lemma_cong_sub(p, w1, t1, sw1, st1);
        lemma_cong_sub(p, w2, t2, sw2, st2);
        lemma_residue(p, w1 - t1);
        lemma_residue(p, w2 - t2);
        let a = (w1 - t1) % p;
        let b = (w2 - t2) % p;
        lemma_cong_sub(p, b, a, sw2 - st2, sw1 - st1);
        let d = (sw2 - st2) - (sw1 - st1);
        lemma_cong_mul(p, x, b - a, x, d);
        lemma_cong_add(p, a, x * (b - a), sw1 - st1, x * d);
        assert((sw1 - st1) + x * d == w - t) by (nonlinear_arith)
            requires
                d == (sw2 - st2) - (sw1 - st1),
                w == sw1 + x * (sw2 - sw1),
                t == st1 + x * (st2 - st1),
        ;
    }
}

impl<E: Engine> LookupSumcheckInstance<E> {
    /// The polynomial of the round.
    pub fn prove_step(&self, rho: &E::Scalar, t_lookup_running: &E::Scalar) -> (poly: UniPoly<
        E::Scalar,
    >)
        requires
            self.wf(),
        ensures
            round_poly(
                E::Scalar::modulus(),
                poly@,
                |x: int| self.claim_at(x),
                rho.val(),
                t_lookup_running.val(),
            ),
            claim_met(E::Scalar::modulus(), poly@, t_lookup_running.val()),
    {
        let ghost claim = |x: int| self.claim_at(x);
        let (a0, a2, a3, a4, a5) = self.compute_a_evals();
        let (b0, b2, b3, b4, b5) = self.compute_b_evals();
        let (c0, c2, c3, c4, c5) = self.compute_c_evals();
        let v0 = a0.plus(b0).plus(c0);
        let v2 = a2.plus(b2).plus(c2);
        let v3 = a3.plus(b3).plus(c3);
        let v4 = a4.plus(b4).plus(c4);
        let v5 = a5.plus(b5).plus(c5);
        proof {
            self.lemma_parts(0, a0.val(), b0.val(), c0.val());
            self.lemma_parts(2, a2.val(), b2.val(), c2.val());
            self.lemma_parts(3, a3.val(), b3.val(), c3.val());
            self.lemma_parts(4, a4.val(), b4.val(), c4.val());
            self.lemma_parts(5, a5.val(), b5.val(), c5.val());
        }
        round_from_evals(*rho, *t_lookup_running, (v0, v2, v3, v4, v5), Ghost(claim))
    }

    proof fn lemma_parts(self, x: int, a: int, b: int, c: int)
        requires
            a == side_claim(self.w_at(x), self.r.val()) % E::Scalar::modulus(),
            b == side_claim(self.t_at(x), self.r.val()) % E::Scalar::modulus(),
            c == (total(self.w_at(x).inv) - total(self.t_at(x).inv)) % E::Scalar::modulus(),
        ensures
            ((a + b) % E::Scalar::modulus() + c) % E::Scalar::modulus() == self.claim_at(x)
                % E::Scalar::modulus(),
    {
        let p = E::Scalar::modulus();
        E::Scalar::lemma_modulus();
        let sa = side_claim(self.w_at(x), self.r.val());
        let sb = side_claim(self.t_at(x), self.r.val());
        let sc = total(self.w_at(x).inv) - total(self.t_at(x).inv);
        lemma_residue(p, sa);
        lemma_residue(p, sb);
        lemma_residue(p, sc);
        lemma_cong_add(p, a, b, sa, sb);
        lemma_residue(p, a + b);
        lemma_cong_add(p, (a + b) % p, c, sa + sb, sc);
        lemma_residue(p, sa + sb + sc);
    }

    /// Checks the polynomial of a round against the running claim and carries the claim on. The
    /// equality polynomial must not vanish at the challenges.
    pub fn verify_step(
        rho: &E::Scalar,
        r_b: &E::Scalar,
        poly_lookup: &UniPoly<E::Scalar>,
        t_lookup_running: &E::Scalar,
    ) -> (res: Result<E::Scalar, NovaError>)
        requires
            claim_met(E::Scalar::modulus(), poly_lookup@, t_lookup_running.val()) ==> eq_at(
                E::Scalar::modulus(),
                rho.val(),
                r_b.val(),
            ) != 0,
        ensures
            res is Ok <==> claim_met(
                E::Scalar::modulus(),
                poly_lookup@,
                t_lookup_running.val(),
            ),
            res is Err ==> res == Err::<E::Scalar, NovaError>(NovaError::InvalidSumcheckProof),
            res is Ok ==> claim_carried(
                E::Scalar::modulus(),
                poly_lookup@,
                eq_at(E::Scalar::modulus(), rho.val(), r_b.val()),
                r_b.val(),
                res->Ok_0.val(),
            ),
    {
        let ghost p = E::Scalar::modulus();
        let z = poly_lookup.eval_at_zero();
        let o = poly_lookup.eval_at_one();
        let sum = z.plus(o);
        proof {
            E::Scalar::lemma_modulus();
            let (pz, po) = (peval(poly_lookup@, 0), peval(poly_lookup@, 1));
            lemma_residue(p, pz);
            lemma_residue(p, po);
            lemma_cong_add(p, z.val(), o.val(), pz, po);
        }
        if !sum.same(*t_lookup_running) {
            return Err(NovaError::InvalidSumcheckProof);
        }
        let one = E::Scalar::one();
        let nr = one.minus(*rho);
        let nb = one.minus(*r_b);
        let n = nr.times(nb);
        let y = rho.times(*r_b);
        let eq = n.plus(y);
        proof {
            lemma_residue(p, 1 - rho.val());
            lemma_residue(p, 1 - r_b.val());
            lemma_cong_mul(p, nr.val(), nb.val(), 1 - rho.val(), 1 - r_b.val());
            lemma_residue(p, nr.val() * nb.val());
            lemma_residue(p, rho.val() * r_b.val());
            lemma_cong_add(
                p,
                n.val(),
                y.val(),
                (1 - rho.val()) * (1 - r_b.val()),
                rho.val() * r_b.val(),
            );
        }
        let eval = poly_lookup.evaluate(r_b);
        match eq.invert() {
            Some(inv) => {
                let out = eval.times(inv);
                proof {
                    let e = peval(poly_lookup@, r_b.val());
                    lemma_residue(p, e);
                    lemma_residue(p, eval.val() * inv.val());
                    lemma_cong_mul(p, out.val(), eq.val(), eval.val() * inv.val(), eq.val());
                    assert((eval.val() * inv.val()) * eq.val() == eval.val() * (eq.val()
                        * inv.val())) by (nonlinear_arith);
                    lemma_reduced(p, 1);
                    lemma_cong_mul(p, eval.val(), eq.val() * inv.val(), eval.val(), 1);
                    assert(eval.val() * 1 == eval.val());
                }
                Ok(out)
            },
            None => Err(NovaError::InvalidInversion),
        }
    }
}

/// The running claim of the first table of an instance; zero where it has none.
pub fn lookup_running_claims_from<E: Engine>(U1: &FoldedInstance<E>) -> (r: E::Scalar)
    ensures
        r.val() == (match U1@.T_lookup {
            Some(t) => if t.len() > 0 {
                t[0]
            } else {
                0
            },
            None => 0,
        }),
{
    match &U1.T_lookup {
        Some(t) => if t.len() > 0 {
            t[0]
        } else {
            E::Scalar::zero()
        },
        None => E::Scalar::zero(),
    }
}

impl<E: Engine> LookupSumcheckInstance<E> {
    /// The claim between the two instances is a polynomial of degree at most four.
    pub proof fn law_claim_degree(self)
        requires
            self.wf(),
        ensures
            poly_of(E::Scalar::modulus(), |x: int| self.claim_at(x), 5),
    {
        let p = E::Scalar::modulus();
        E::Scalar::lemma_modulus();
        let r = self.r.val();
        let fa = |x: int| side_claim(self.w_at(x), r);
        let fb = |x: int| side_claim(self.t_at(x), r);
        assert forall|x: int| #[trigger] fa(x) == rows(
            side_between(p, self.w1(), self.w2(), x),
            r,
            self.w1().eq_right.len(),
        ) by {}
        assert forall|x: int| #[trigger] fb(x) == rows(
            side_between(p, self.t1(), self.t2(), x),
            r,
            self.t1().eq_right.len(),
        ) by {}
        lemma_rows_poly(p, self.w1(), self.w2(), r, self.w1().eq_right.len(), fa);
        lemma_rows_poly(p, self.t1(), self.t2(), r, self.t1().eq_right.len(), fb);
        let fw = |x: int| total(self.w_at(x).inv);
        let ft = |x: int| total(self.t_at(x).inv);
        let (w1, w2) = (total(self.w1().inv), total(self.w2().inv));
        let (t1, t2) = (total(self.t1().inv), total(self.t2().inv));
        assert forall|x: int| #[trigger] fw(x) % p == line(p, w1, w2, x) % p by {
            lemma_total_between(p, self.w1().inv, self.w2().inv, x);
            lemma_residue(p, w1 + x * (w2 - w1));
        }
        assert forall|x: int| #[trigger] ft(x) % p == line(p, t1, t2, x) % p by {
            lemma_total_between(p, self.t1().inv, self.t2().inv, x);
            lemma_residue(p, t1 + x * (t2 - t1));
        }
        lemma_poly_line(p, w1, w2, fw);
        lemma_poly_line(p, t1, t2, ft);
        let fc = |x: int| fw(x) - ft(x);
        assert forall|x: int| #[trigger] fc(x) % p == (fw(x) + -1 * ft(x)) % p by {}
        lemma_poly_add(p, fw, -1, ft, fc, 2);
        lemma_poly_pad(p, fc, 2);
        lemma_poly_pad(p, fc, 3);
        lemma_poly_pad(p, fc, 4);
        let fab = |x: int| fa(x) + fb(x);
        assert forall|x: int| #[trigger] fab(x) % p == (fa(x) + 1 * fb(x)) % p by {}
        lemma_poly_add(p, fa, 1, fb, fab, 5);
        let h = |x: int| self.claim_at(x);
        assert forall|x: int| #[trigger] h(x) % p == (fab(x) + 1 * fc(x)) % p by {
            lemma_residue(p, fab(x) + fc(x));
        }
        lemma_poly_add(p, fab, 1, fc, h, 5);
    }

    /// Where the running claim is what the claims of the two instances add up to, the polynomial
    /// of a round is the claim times the equality polynomial, everywhere.
    pub proof fn law_round_polynomial(self, poly: Seq<int>, rho: int, t: int, x: int)
        requires
            self.wf(),
            round_poly(E::Scalar::modulus(), poly, |x: int| self.claim_at(x), rho, t),
            t % E::Scalar::modulus() == (eq_at(E::Scalar::modulus(), rho, 0) * self.claim_at(0)
                + eq_at(E::Scalar::modulus(), rho, 1) * self.claim_at(1)) % E::Scalar::modulus(),
        ensures
            peval(poly, x) % E::Scalar::modulus() == (eq_at(E::Scalar::modulus(), rho, x)
                * self.claim_at(x)) % E::Scalar::modulus(),
    {
        E::Scalar::lemma_modulus();
        self.law_claim_degree();
        lemma_round_polynomial(
            E::Scalar::modulus(),
            poly,
            |x: int| self.claim_at(x),
            rho,
            t,
            x,
        );
    }

    /// The claim that is carried on from such a round is the claim of the instance at the
    /// challenge.
    pub proof fn law_carried_claim(
        self,
        poly: Seq<int>,
        rho: int,
        t: int,
        r_b: int,
        t_out: int,
    )
        requires
            self.wf(),
            round_poly(E::Scalar::modulus(), poly, |x: int| self.claim_at(x), rho, t),
            t % E::Scalar::modulus() == (eq_at(E::Scalar::modulus(), rho, 0) * self.claim_at(0)
                + eq_at(E::Scalar::modulus(), rho, 1) * self.claim_at(1)) % E::Scalar::modulus(),
            eq_at(E::Scalar::modulus(), rho, r_b) != 0,
            claim_carried(
                E::Scalar::modulus(),
                poly,
                eq_at(E::Scalar::modulus(), rho, r_b),
                r_b,
                t_out,
            ),
            0 <= t_out < E::Scalar::modulus(),
        ensures
            t_out == self.claim_at(r_b),
    {
        let p = E::Scalar::modulus();
        E::Scalar::lemma_modulus();
        self.law_claim_degree();
        lemma_carried_claim(p, poly, |x: int| self.claim_at(x), rho, t, r_b, t_out);
        lemma_reduced(p, t_out);
        lemma_residue(
            p,
            side_claim(self.w_at(r_b), self.r.val()) + side_claim(self.t_at(r_b), self.r.val())
                + (total(self.w_at(r_b).inv) - total(self.t_at(r_b).inv)),
        );
        lemma_reduced(p, self.claim_at(r_b));
    }
}

/// How often `j` occurs in a sequence of positions.
pub open spec fn occurrences(m: Seq<int>, j: int) -> int
    decreases m.len(),
{
    if m.len() == 0 {
        0
    } else {
        occurrences(m.drop_last(), j) + if m.last() == j {
            1int
        } else {
            0int
        }
    }
}

/// The sum of `count[j] * inv[j]` over the first `n` positions.
pub open spec fn weighted_total(m: Seq<int>, inv: Seq<int>, n: nat) -> int
    decreases n,
{
    if n == 0 {
        0
    } else {
        weighted_total(m, inv, (n - 1) as nat) + occurrences(m, n - 1) * inv[n - 1]
    }
}

proof fn lemma_weighted_step(m: Seq<int>, inv: Seq<int>, n: nat)
    requires
        m.len() > 0,
        n <= inv.len(),
    ensures
        weighted_total(m, inv, n) == weighted_total(m.drop_last(), inv, n) + if 0 <= m.last() < n {
            inv[m.last()]
        } else {
            0
        },
    decreases n,
{
    if n > 0 {
        lemma_weighted_step(m, inv, (n - 1) as nat);
        let o = occurrences(m.drop_last(), n - 1);
        let y = inv[n - 1];
        assert((o + 1) * y == o * y + y) by (nonlinear_arith);
        assert((o + 0) * y == o * y);
    }
}

proof fn lemma_weighted_empty(inv: Seq<int>, n: nat)
    ensures
        weighted_total(Seq::empty(), inv, n) == 0,
    decreases n,
{
    if n > 0 {
        lemma_weighted_empty(inv, (n - 1) as nat);
        assert(0 * inv[n - 1] == 0);
    }
}

proof fn lemma_logup_counts(p: int, m: Seq<int>, inv_w: Seq<int>, inv: Seq<int>)
    requires
        p > 0,
        inv_w.len() == m.len(),
        forall|i: int| 0 <= i < m.len() ==> 0 <= #[trigger] m[i] < inv.len(),
        forall|i: int| 0 <= i < m.len() ==> #[trigger] inv_w[i] == inv[m[i]],
    ensures
        total(inv_w) == weighted_total(m, inv, inv.len()),
    decreases m.len(),
{
    if m.len() == 0 {
        assert(m =~= Seq::<int>::empty());
        lemma_weighted_empty(inv, inv.len());
    } else {
        let (a, b) = (m.drop_last(), inv_w.drop_last());
        assert forall|i: int| 0 <= i < a.len() implies 0 <= #[trigger] a[i] < inv.len() by {
            assert(a[i] == m[i]);
        }
        assert forall|i: int| 0 <= i < a.len() implies #[trigger] b[i] == inv[a[i]] by {
            assert(b[i] == inv_w[i]);
            assert(a[i] == m[i]);
        }
        lemma_logup_counts(p, a, b, inv);
        lemma_weighted_step(m, inv, inv.len());
        assert(inv_w[m.len() - 1] == inv[m[m.len() - 1]]);
    }
}

proof fn lemma_quotient_total(
    p: int,
    t: Seq<int>,
    r: int,
    m: Seq<int>,
    inv: Seq<int>,
    q: Seq<int>,
    n: nat,
)
    requires
        is_prime(p),
        n <= t.len(),
        inverted_plus_r(p, t, r, inv),
        quotients_plus_r(p, t, Seq::new(t.len(), |j: int| occurrences(m, j)), r, q),
    ensures
        total(q.take(n as int)) % p == weighted_total(m, inv, n) % p,
    decreases n,
{
    if n == 0 {
        assert(q.take(0) =~= Seq::<int>::empty());
    } else {
        lemma_quotient_total(p, t, r, m, inv, q, (n - 1) as nat);
        let j = n - 1;
        let s = q.take(n as int);
        assert(s.drop_last() =~= q.take(j));
        let a = t[j] + r;
        let o = occurrences(m, j);
        assert(Seq::new(t.len(), |j: int| occurrences(m, j))[j] == o);
        assert((a * q[j]) % p == o % p);
        assert((a * inv[j]) % p == 1);
        lemma_reduced(p, 1);
        lemma_cong_mul(p, a * inv[j], o, 1, o);
        assert((a * inv[j]) * o == (o * inv[j]) * a) by (nonlinear_arith);
        assert(a * q[j] == q[j] * a) by (nonlinear_arith);
        assert(1 * o == o);
        assert(a % p != 0) by {
            if a % p == 0 {
                lemma_reduced(p, 0);
                lemma_cong_mul(p, a, inv[j], 0, inv[j]);
                assert(0 * inv[j] == 0);
            }
        }
        lemma_cancel(p, q[j], o * inv[j], a);
        lemma_cong_add(
            p,
            total(s.drop_last()),
            q[j],
            weighted_total(m, inv, j as nat),
            o * inv[j],
        );
    }
}

/// The inverses are determined by what they invert.
proof fn lemma_inverse_unique(p: int, a: int, x: int, y: int)
    requires
        is_prime(p),
        0 <= x < p,
        0 <= y < p,
        (a * x) % p == 1,
        (a * y) % p == 1,
    ensures
        x == y,
{
    assert(a % p != 0) by {
        if a % p == 0 {
            lemma_reduced(p, 0);
            lemma_cong_mul(p, a, x, 0, x);
            assert(0 * x == 0);
            lemma_reduced(p, 1);
        }
    }
    assert(a * x == x * a && a * y == y * a) by (nonlinear_arith);
    lemma_cancel(p, x, y, a);
    lemma_reduced(p, x);
    lemma_reduced(p, y);
}

/// Where every number of the witness stands in the table and the multiplicities count how often
/// each position is looked up, the inverses of the witness and the quotients of the table have
/// the same sum.
pub proof fn law_logup(
    p: int,
    w: Seq<int>,
    t: Seq<int>,
    m: Seq<int>,
    r: int,
    inv_w: Seq<int>,
    inv_t: Seq<int>,
)
    requires
        is_prime(p),
        m.len() == w.len(),
        forall|i: int| 0 <= i < m.len() ==> 0 <= #[trigger] m[i] < t.len(),
        forall|i: int| 0 <= i < m.len() ==> #[trigger] w[i] == t[m[i]],
        invertible_plus_r(p, t, r),
        inverted_plus_r(p, w, r, inv_w),
        quotients_plus_r(p, t, Seq::new(t.len(), |j: int| occurrences(m, j)), r, inv_t),
    ensures
        total(inv_w) % p == total(inv_t) % p,
{
    let inv = Seq::new(
        t.len(),
        |j: int| choose|y: int| 0 <= y < p && #[trigger] ((t[j] + r) * y) % p == 1,
    );
    assert forall|j: int| 0 <= j < t.len() implies 0 <= #[trigger] inv[j] < p && ((t[j] + r)
        * inv[j]) % p == 1 by {
        assert((t[j] + r) % p != 0);
        let y = lemma_inverse_exists(p, t[j] + r);
        assert(0 <= y < p && ((t[j] + r) * y) % p == 1);
    }
    assert forall|i: int| 0 <= i < m.len() implies #[trigger] inv_w[i] == inv[m[i]] by {
        assert(w[i] == t[m[i]]);
        assert(0 <= inv[m[i]] < p);
        lemma_inverse_unique(p, w[i] + r, inv_w[i], inv[m[i]]);
    }
    lemma_logup_counts(p, m, inv_w, inv);
    lemma_quotient_total(p, t, r, m, inv, inv_t, t.len());
    assert(inv_t.take(t.len() as int) =~= inv_t);
}

/// The claim of two sides vanishes where on each side the cells or the weights do, and the sums
/// of the inverses agree.
pub proof fn law_claim_vanishes(p: int, w: SideVal, t: SideVal, r: int)
    requires
        p > 0,
        side_shape(w),
        side_shape(t),
        cells_vanish(p, w, r) || weightless(w),
        cells_vanish(p, t, r) || weightless(t),
        total(w.inv) % p == total(t.inv) % p,
    ensures
        lookup_claim(p, w, t, r) == 0,
{
    lemma_reduced(p, 0);
    lemma_rows_vanish(p, w, r, w.eq_right.len());
    lemma_rows_vanish(p, t, r, t.eq_right.len());
    lemma_cong_diff(p, total(w.inv), total(t.inv));
    lemma_cong_add(p, side_claim(w, r), side_claim(t, r), 0, 0);
    lemma_cong_add(
        p,
        side_claim(w, r) + side_claim(t, r),
        total(w.inv) - total(t.inv),
        0,
        0,
    );
}

/// Inverses, and quotients, make the cells of their sides vanish.
pub proof fn law_inverses_satisfy(p: int, s: SideVal, r: int)
    requires
        p > 0,
        side_shape(s),
        quotients_plus_r(p, s.base, s.num, r, s.inv) || (s.num == ones(s.inv.len())
            && inverted_plus_r(p, s.base, r, s.inv)),
    ensures
        cells_vanish(p, s, r),
{
    assert forall|k: int| 0 <= k < s.inv.len() implies #[trigger] cell(s, r, k) % p == 0 by {
        let a = s.base[k] + r;
        let i = s.inv[k];
        assert(a * i == i * a) by (nonlinear_arith);
        if quotients_plus_r(p, s.base, s.num, r, s.inv) {
            assert((a * i) % p == s.num[k] % p);
        } else {
            assert((a * i) % p == 1);
            assert(s.num[k] == 1);
            assert(p > 1) by {
                if p == 1 {
                    lemma_residue(p, a * i);
                }
            }
            lemma_reduced(p, 1);
        }
        lemma_cong_diff(p, i * a, s.num[k]);
    }
}

impl<E: Engine> LookupSumcheckInstance<E> {
    /// At zero and at one the claim is that of the first and of the second instance.
    pub proof fn law_endpoints(self)
        requires
            self.wf(),
        ensures
            self.claim_at(0) == lookup_claim(
                E::Scalar::modulus(),
                self.w1(),
                self.t1(),
                self.r.val(),
            ),
            self.claim_at(1) == lookup_claim(
                E::Scalar::modulus(),
                self.w2(),
                self.t2(),
                self.r.val(),
            ),
    {
        let p = E::Scalar::modulus();
        E::Scalar::lemma_modulus();
        lemma_between_ends::<E::Scalar>(self.eq_w1_left@, self.eq_w2_left@);
        lemma_between_ends::<E::Scalar>(self.eq_w1_right@, self.eq_w2_right@);
        lemma_between_ends::<E::Scalar>(self.inv_w1_poly.Z@, self.inv_w2_poly.Z@);
        lemma_between_ends::<E::Scalar>(self.w1_poly.Z@, self.w2_poly.Z@);
        lemma_between_ends::<E::Scalar>(self.eq_t1_left@, self.eq_t2_left@);
        lemma_between_ends::<E::Scalar>(self.eq_t1_right@, self.eq_t2_right@);
        lemma_between_ends::<E::Scalar>(self.inv_t1_poly.Z@, self.inv_t2_poly.Z@);
        lemma_between_ends::<E::Scalar>(self.t1_poly.Z@, self.t2_poly.Z@);
        lemma_between_ends::<E::Scalar>(self.ts1_poly.Z@, self.ts2_poly.Z@);
        let n = self.inv_w1_poly.Z@.len();
        assert(line(p, 1, 1, 0) == 1 && line(p, 1, 1, 1) == 1) by {
            lemma_reduced(p, 1);
        }
        assert(between(p, ones(n), ones(n), 0) =~= ones(n));
        assert(between(p, ones(n), ones(n), 1) =~= ones(n));
        assert(vals(self.inv_w2_poly.Z@).len() == n);
        assert(self.w_at(0) == self.w1());
        assert(self.w_at(1) == self.w2());
        assert(self.t_at(0) == self.t1());
        assert(self.t_at(1) == self.t2());
    }

    /// A round is accepted with the running claim that it was made for, and with no other.
    pub proof fn law_round_binds_claim(self, poly: Seq<int>, rho: int, t: int, t_other: int)
        requires
            self.wf(),
            round_poly(E::Scalar::modulus(), poly, |x: int| self.claim_at(x), rho, t),
            0 <= t < E::Scalar::modulus(),
        ensures
            claim_met(E::Scalar::modulus(), poly, t),
            t_other != t ==> !claim_met(E::Scalar::modulus(), poly, t_other),
    {
        let p = E::Scalar::modulus();
        let a = eq_at(p, rho, 0) * self.claim_at(0);
        lemma_cong_add(p, peval(poly, 0), peval(poly, 1), a, t - a);
        lemma_reduced(p, t);
    }

    /// The first round with lookups that are right vanishes at zero and at one: nothing was
    /// carried before it, and the inverses of the lookups add up to the quotients of the table.
    pub proof fn law_first_round_vanishes(self, poly: Seq<int>, rho: int)
        requires
            self.wf(),
            weightless(self.w1()),
            weightless(self.t1()),
            total(self.w1().inv) % E::Scalar::modulus() == total(self.t1().inv)
                % E::Scalar::modulus(),
            inverted_plus_r(
                E::Scalar::modulus(),
                self.w2().base,
                self.r.val(),
                self.w2().inv,
            ),
            quotients_plus_r(
                E::Scalar::modulus(),
                self.t2().base,
                self.t2().num,
                self.r.val(),
                self.t2().inv,
            ),
            total(self.w2().inv) % E::Scalar::modulus() == total(self.t2().inv)
                % E::Scalar::modulus(),
            round_poly(E::Scalar::modulus(), poly, |x: int| self.claim_at(x), rho, 0),
        ensures
            peval(poly, 0) % E::Scalar::modulus() == 0,
            peval(poly, 1) % E::Scalar::modulus() == 0,
    {
        let p = E::Scalar::modulus();
        let r = self.r.val();
        E::Scalar::lemma_modulus();
        self.law_endpoints();
        law_claim_vanishes(p, self.w1(), self.t1(), r);
        law_inverses_satisfy(p, self.w2(), r);
        law_inverses_satisfy(p, self.t2(), r);
        law_claim_vanishes(p, self.w2(), self.t2(), r);
        assert(eq_at(p, rho, 0) * 0 == 0);
        lemma_reduced(p, 0);
    }
}

/// The claim of a lookup argument is the sum, over both sides and every cell of their grids, of the
/// two weights times what the cell lacks, plus the sum of all inverses of the witness less the sum
/// of all quotients of the table.
pub proof fn law_lookup_claim_sum(p: int, w: SideVal, t: SideVal, r: int)
    ensures
        lookup_claim(p, w, t, r) == (sum(
            w.eq_right.len(),
            |i: int|
                w.eq_right[i] * sum(
                    w.eq_left.len(),
                    |k: int|
                        w.eq_left[k] * (w.inv[i * w.eq_left.len() + k] * (w.base[i
                            * w.eq_left.len() + k] + r) - w.num[i * w.eq_left.len() + k]),
                ),
        ) + sum(
            t.eq_right.len(),
            |i: int|
                t.eq_right[i] * sum(
                    t.eq_left.len(),
                    |k: int|
                        t.eq_left[k] * (t.inv[i * t.eq_left.len() + k] * (t.base[i
                            * t.eq_left.len() + k] + r) - t.num[i * t.eq_left.len() + k]),
                ),
        ) + sum(w.inv.len(), |i: int| w.inv[i]) - sum(t.inv.len(), |i: int| t.inv[i])) % p,
{
    law_side_claim_sum(w, r);
    law_side_claim_sum(t, r);
    law_total_sum(w.inv);
    law_total_sum(t.inv);
}

impl<E: Engine> LookupSumcheckInstance<E> {
    /// The claim of an instance at `x` is that of sides whose numbers are, place by place, those of
    /// the running part times `1 - x` plus those of the other part times `x`: on the witness side
    /// the weights, the inverses and the lookups, with numerators one; on the table side the
    /// weights, the quotients, the table and, as numerators, the multiplicities.
    pub proof fn law_claim_mixed(self, x: int, w: SideVal, t: SideVal)
        requires
            self.wf(),
            mixed(E::Scalar::modulus(), w.eq_left, self.eq_w1_left@, self.eq_w2_left@, x),
            mixed(E::Scalar::modulus(), w.eq_right, self.eq_w1_right@, self.eq_w2_right@, x),
            mixed(E::Scalar::modulus(), w.inv, self.inv_w1_poly.Z@, self.inv_w2_poly.Z@, x),
            mixed(E::Scalar::modulus(), w.base, self.w1_poly.Z@, self.w2_poly.Z@, x),
            w.num == Seq::new(self.w1_poly.Z@.len(), |i: int| 1int),
            mixed(E::Scalar::modulus(), t.eq_left, self.eq_t1_left@, self.eq_t2_left@, x),
            mixed(E::Scalar::modulus(), t.eq_right, self.eq_t1_right@, self.eq_t2_right@, x),
            mixed(E::Scalar::modulus(), t.inv, self.inv_t1_poly.Z@, self.inv_t2_poly.Z@, x),
            mixed(E::Scalar::modulus(), t.base, self.t1_poly.Z@, self.t2_poly.Z@, x),
            mixed(E::Scalar::modulus(), t.num, self.ts1_poly.Z@, self.ts2_poly.Z@, x),
        ensures
            self.claim_at(x) == lookup_claim(E::Scalar::modulus(), w, t, self.r.val()),
    {
        let p = E::Scalar::modulus();
        E::Scalar::lemma_modulus();
        let (a, b) = (self.w_at(x), self.t_at(x));
        let (w1, w2, t1, t2) = (self.w1(), self.w2(), self.t1(), self.t2());
        assert(w1.inv.len() == w1.base.len() && w2.inv.len() == w2.base.len());
        lemma_mixed(p, w.eq_left, self.eq_w1_left@, self.eq_w2_left@, x);
        lemma_mixed(p, w.eq_right, self.eq_w1_right@, self.eq_w2_right@, x);
        lemma_mixed(p, w.inv, self.inv_w1_poly.Z@, self.inv_w2_poly.Z@, x);
        lemma_mixed(p, w.base, self.w1_poly.Z@, self.w2_poly.Z@, x);
        lemma_mixed(p, t.eq_left, self.eq_t1_left@, self.eq_t2_left@, x);
        lemma_mixed(p, t.eq_right, self.eq_t1_right@, self.eq_t2_right@, x);
        lemma_mixed(p, t.inv, self.inv_t1_poly.Z@, self.inv_t2_poly.Z@, x);
        lemma_mixed(p, t.base, self.t1_poly.Z@, self.t2_poly.Z@, x);
        lemma_mixed(p, t.num, self.ts1_poly.Z@, self.ts2_poly.Z@, x);
        assert(a.num =~= w.num) by {
            assert forall|i: int| 0 <= i < a.num.len() implies a.num[i] == w.num[i] by {
                law_between_mixes(p, w1.num, w2.num, x, i);
                assert((1 - x) * 1 + x * 1 == 1) by (nonlinear_arith);
                lemma_reduced(p, 1);
            }
        }
        assert(a == w);
        assert(b == t);
    }
}

/// The numbers are, place by place, the first scalars times `1 - x` plus the others times `x`.
pub open spec fn mixed<F: PrimeField>(p: int, c: Seq<int>, a: Seq<F>, b: Seq<F>, x: int) -> bool {
    &&& c.len() == a.len()
    &&& forall|i: int|
        0 <= i < a.len() ==> #[trigger] c[i] == ((1 - x) * a[i].val() + x * b[i].val()) % p
}

proof fn lemma_mixed<F: PrimeField>(p: int, c: Seq<int>, a: Seq<F>, b: Seq<F>, x: int)
    requires
        mixed(p, c, a, b, x),
        a.len() == b.len(),
    ensures
        c == between(p, vals(a), vals(b), x),
{
    assert forall|i: int| 0 <= i < a.len() implies c[i] == between(p, vals(a), vals(b), x)[i] by {
        law_between_mixes(p, vals(a), vals(b), x, i);
    }
    assert(c =~= between(p, vals(a), vals(b), x));
}

/// All numbers of a sequence, plus `r`, can be inverted exactly if there is a sequence of inverses:
/// in every place, the number plus `r` times the inverse is one.
pub proof fn law_invertible_exactly(p: int, v: Seq<int>, r: int)
    requires
        is_prime(p),
    ensures
        invertible_plus_r(p, v, r) <==> exists|y: Seq<int>|
            y.len() == v.len() && (forall|i: int|
                0 <= i < v.len() ==> ((v[i] + r) * #[trigger] y[i]) % p == 1),
{
    lemma_reduced(p, 0);
    if invertible_plus_r(p, v, r) {
        let y = Seq::new(
            v.len(),
            |i: int| choose|y: int| 0 <= y < p && #[trigger] ((v[i] + r) * y) % p == 1,
        );
        assert forall|i: int| 0 <= i < v.len() implies ((v[i] + r) * #[trigger] y[i]) % p == 1 by {
            assert((v[i] + r) % p != 0);
            let z = lemma_inverse_exists(p, v[i] + r);
            assert(0 <= z < p && ((v[i] + r) * z) % p == 1);
        }
        assert(y.len() == v.len());
    }
    if exists|y: Seq<int>|
        y.len() == v.len() && (forall|i: int|
            0 <= i < v.len() ==> ((v[i] + r) * #[trigger] y[i]) % p == 1) {
        let y = choose|y: Seq<int>|
            y.len() == v.len() && (forall|i: int|
                0 <= i < v.len() ==> ((v[i] + r) * #[trigger] y[i]) % p == 1);
        assert forall|i: int| 0 <= i < v.len() implies #[trigger] (v[i] + r) % p != 0 by {
            assert(((v[i] + r) * y[i]) % p == 1);
            if (v[i] + r) % p == 0 {
                lemma_cong_mul(p, v[i] + r, y[i], 0, y[i]);
                assert(0 * y[i] == 0);
            }
        }
    }
}

} // verus!
