//! Weighted sums over grids of cells, and how they move between two instances.

use crate::circuit::lookup::{claim_carried, eq_at};
use crate::circuit::relation::line;
use crate::degree::{
    lemma_poly_add, lemma_poly_constant, lemma_poly_line, lemma_poly_pad, lemma_poly_times_line,
    poly_of, represents,
};
use crate::field::{
    is_prime, lemma_cancel, lemma_cong_add, lemma_cong_mul, lemma_cong_sub, lemma_reduced,
    lemma_residue, PrimeField,
};
use crate::par::par_map;
use crate::poly::{claim_met, lemma_interpolation_unique, peval, vals, UniPoly};
use crate::sums::{lemma_sum_same, sum};
use vstd::prelude::*;

verus! {

/// One side of a lookup argument: the weights of the rows and columns of its cells, and in each
/// cell an inverse, the number that it inverts before `r` is added, and a numerator.
pub struct SideVal {
    pub eq_left: Seq<int>,
    pub eq_right: Seq<int>,
    pub inv: Seq<int>,
    pub base: Seq<int>,
    pub num: Seq<int>,
}

/// The numbers at `x` on the lines through those of `a` at zero and those of `b` at one.
pub open spec fn between(p: int, a: Seq<int>, b: Seq<int>, x: int) -> Seq<int> {
    Seq::new(a.len(), |i: int| line(p, a[i], b[i], x))
}

/// The side at `x` between two sides.
pub open spec fn side_between(p: int, a: SideVal, b: SideVal, x: int) -> SideVal {
    SideVal {
        eq_left: between(p, a.eq_left, b.eq_left, x),
        eq_right: between(p, a.eq_right, b.eq_right, x),
        inv: between(p, a.inv, b.inv, x),
        base: between(p, a.base, b.base, x),
        num: between(p, a.num, b.num, x),
    }
}

/// What a cell lacks: zero where the inverse times `base + r` is the numerator.
pub open spec fn cell(s: SideVal, r: int, k: int) -> int {
    s.inv[k] * (s.base[k] + r) - s.num[k]
}

/// The weighted sum over the first `j` cells of row `i`.
pub open spec fn row(s: SideVal, r: int, i: int, j: nat) -> int
    decreases j,
{
    if j == 0 {
        0
    } else {
        row(s, r, i, (j - 1) as nat) + s.eq_left[j - 1] * cell(s, r, i * s.eq_left.len() + j - 1)
    }
}

/// The weighted sum over the first `i` rows.
pub open spec fn rows(s: SideVal, r: int, i: nat) -> int
    decreases i,
{
    if i == 0 {
        0
    } else {
        rows(s, r, (i - 1) as nat) + s.eq_right[i - 1] * row(s, r, i - 1, s.eq_left.len())
    }
}

/// The weighted sum over all cells.
pub open spec fn side_claim(s: SideVal, r: int) -> int {
    rows(s, r, s.eq_right.len())
}

/// The sum of a sequence.
pub open spec fn total(s: Seq<int>) -> int
    decreases s.len(),
{
    if s.len() == 0 {
        0
    } else {
        total(s.drop_last()) + s.last()
    }
}

/// A side has one cell for each pair of a row and a column.
pub open spec fn side_shape(s: SideVal) -> bool {
    &&& s.inv.len() == s.eq_left.len() * s.eq_right.len()
    &&& s.base.len() == s.inv.len()
    &&& s.num.len() == s.inv.len()
}

/// Two sides of the same shape.
pub open spec fn sides_alike(a: SideVal, b: SideVal) -> bool {
    &&& side_shape(a)
    &&& side_shape(b)
    &&& a.eq_left.len() == b.eq_left.len()
    &&& a.eq_right.len() == b.eq_right.len()
}

/// The number at `x` on the line through `a` at zero and `b` at one.
pub fn line_at<F: PrimeField>(a: F, b: F, x: F) -> (r: F)
    ensures
        r.val() == line(F::modulus(), a.val(), b.val(), x.val()),
{
    let d = b.minus(a);
    let xd = x.times(d);
    let r = a.plus(xd);
    proof {
        let p = F::modulus();
        F::lemma_modulus();
        let dd = b.val() - a.val();
        lemma_residue(p, dd);
        lemma_cong_mul(p, x.val(), d.val(), x.val(), dd);
        lemma_residue(p, x.val() * d.val());
        lemma_cong_add(p, a.val(), xd.val(), a.val(), x.val() * dd);
    }
    r
}

/// One side of two instances.
pub struct Side<'a, F: PrimeField> {
    pub eq_left_1: &'a Vec<F>,
    pub eq_left_2: &'a Vec<F>,
    pub eq_right_1: &'a Vec<F>,
    pub eq_right_2: &'a Vec<F>,
    pub inv_1: &'a Vec<F>,
    pub inv_2: &'a Vec<F>,
    pub base_1: &'a Vec<F>,
    pub base_2: &'a Vec<F>,
    /// The numerators; one where they are not given.
    pub num: Option<(&'a Vec<F>, &'a Vec<F>)>,
}

/// As many ones.
pub open spec fn ones(n: nat) -> Seq<int> {
    Seq::new(n, |i: int| 1int)
}

impl<'a, F: PrimeField> Side<'a, F> {
    pub open spec fn first(&self) -> SideVal {
        SideVal {
            eq_left: vals(self.eq_left_1@),
            eq_right: vals(self.eq_right_1@),
            inv: vals(self.inv_1@),
            base: vals(self.base_1@),
            num: match self.num {
                Some(n) => vals(n.0@),
                None => ones(self.inv_1@.len()),
            },
        }
    }

    pub open spec fn second(&self) -> SideVal {
        SideVal {
            eq_left: vals(self.eq_left_2@),
            eq_right: vals(self.eq_right_2@),
            inv: vals(self.inv_2@),
            base: vals(self.base_2@),
            num: match self.num {
                Some(n) => vals(n.1@),
                None => ones(self.inv_2@.len()),
            },
        }
    }

    pub open spec fn at(&self, x: int) -> SideVal {
        side_between(F::modulus(), self.first(), self.second(), x)
    }

    /// The weighted sum over a row at a point between the instances.
    pub fn row_at(&self, r: F, i: usize, x: F) -> (v: F)
        requires
            sides_alike(self.first(), self.second()),
            i < self.eq_right_1@.len(),
        ensures
            v.val() == row(self.at(x.val()), r.val(), i as int, self.eq_left_1@.len())
                % F::modulus(),
    {
        let ghost p = F::modulus();
        let ghost s = self.at(x.val());
        let left: usize = self.eq_left_1.len();
        let right: usize = self.eq_right_1.len();
        let cells: usize = self.inv_1.len();
        proof {
            F::lemma_modulus();
            lemma_reduced(p, 0);
            lemma_reduced(p, 1);
            assert(self.first().inv.len() == cells);
            assert(self.first().eq_left.len() == left);
            assert(self.first().eq_right.len() == right);
        }
        let mut acc = F::zero();
        let mut j: usize = 0;
        while j < left
            invariant
                j <= left,
                left == self.eq_left_1@.len(),
                right == self.eq_right_1@.len(),
                i < right,
                cells == self.inv_1@.len(),
                left * right == cells,
                sides_alike(self.first(), self.second()),
                p == F::modulus(),
                p > 0,
                1int % p == 1,
                s == self.at(x.val()),
                acc.val() == row(s, r.val(), i as int, j as nat) % p,
            decreases left - j,
        {
            proof {
                assert((i + 1) * left <= right * left && i * left >= 0 && (i + 1) * left == i
                    * left + left && left * right == right * left) by (nonlinear_arith)
                    requires
                        i + 1 <= right,
                        i >= 0,
                        left >= 0,
                ;
            }
            let k: usize = i * left + j;
            let e = line_at(self.eq_left_1[j], self.eq_left_2[j], x);
            let inv = line_at(self.inv_1[k], self.inv_2[k], x);
            let base = line_at(self.base_1[k], self.base_2[k], x);
            let num = match self.num {
                Some(n) => line_at(n.0[k], n.1[k], x),
                None => F::one(),
            };
            let sum = base.plus(r);
            let prod = inv.times(sum);
            let c = prod.minus(num);
            let term = e.times(c);
            let ghost before = acc.val();
            acc = acc.plus(term);
            proof {
                let kk = i as int * s.eq_left.len() + j;
                assert(kk == k);
                assert(s.eq_left[j as int] == e.val());
                assert(s.inv[kk] == inv.val());
                assert(s.base[kk] == base.val());
                assert(s.num[kk] == num.val()) by {
                    if self.num is None {
                        assert(line(p, 1, 1, x.val()) == 1) by {
                            assert(1 + x.val() * (1 - 1) == 1) by (nonlinear_arith);
                        }
                    }
                }
                lemma_residue(p, base.val() + r.val());
                lemma_cong_mul(p, inv.val(), sum.val(), inv.val(), base.val() + r.val());
                let y = inv.val() * (base.val() + r.val());
                lemma_residue(p, inv.val() * sum.val());
                lemma_cong_sub(p, prod.val(), num.val(), y, num.val());
                lemma_residue(p, prod.val() - num.val());
                lemma_cong_mul(p, e.val(), c.val(), e.val(), y - num.val());
                lemma_residue(p, e.val() * c.val());
                let z = row(s, r.val(), i as int, j as nat);
                lemma_residue(p, z);
                lemma_cong_add(p, before, term.val(), z, e.val() * (y - num.val()));
                assert(cell(s, r.val(), kk) == y - num.val());
            }
            j = j + 1;
        }
        acc
    }

    /// The weighted sum over all cells at a point between the instances.
    pub fn claim_at(&self, r: F, x: F) -> (v: F)
        requires
            sides_alike(self.first(), self.second()),
        ensures
            v.val() == side_claim(self.at(x.val()), r.val()) % F::modulus(),
    {
        let ghost p = F::modulus();
        let ghost s = self.at(x.val());
        let right: usize = self.eq_right_1.len();
        proof {
            F::lemma_modulus();
            lemma_reduced(p, 0);
        }
        let f = |i: usize| -> (v: F)
            requires
                i < right,
                right == self.eq_right_1@.len(),
                sides_alike(self.first(), self.second()),
            ensures
                v.val() == row(self.at(x.val()), r.val(), i as int, self.eq_left_1@.len())
                    % F::modulus(),
            { self.row_at(r, i, x) };
        let sums = par_map(right, f);
        proof {
            assert forall|i: int| 0 <= i < right implies (#[trigger] sums@[i]).val() == row(
                s,
                r.val(),
                i,
                s.eq_left.len(),
            ) % p by {
                assert(f.ensures((i as usize,), sums@[i as usize as int]));
            }
        }
        let mut acc = F::zero();
        let mut i: usize = 0;
        while i < right
            invariant
                i <= right,
                right == self.eq_right_1@.len(),
                right == sums@.len(),
                sides_alike(self.first(), self.second()),
                p == F::modulus(),
                p > 0,
                s == self.at(x.val()),
                forall|j: int|
                    0 <= j < right ==> (#[trigger] sums@[j]).val() == row(
                        s,
                        r.val(),
                        j,
                        s.eq_left.len(),
                    ) % p,
                acc.val() == rows(s, r.val(), i as nat) % p,
            decreases right - i,
        {
            let e = line_at(self.eq_right_1[i], self.eq_right_2[i], x);
            let term = e.times(sums[i]);
            let ghost before = acc.val();
            acc = acc.plus(term);
            proof {
                let y = row(s, r.val(), i as int, s.eq_left.len());
                assert(s.eq_right[i as int] == e.val());
                lemma_residue(p, y);
                lemma_cong_mul(p, e.val(), sums@[i as int].val(), e.val(), y);
                lemma_residue(p, e.val() * sums@[i as int].val());
                let z = rows(s, r.val(), i as nat);
                lemma_residue(p, z);
                lemma_cong_add(p, before, term.val(), z, e.val() * y);
            }
            i = i + 1;
        }
        acc
    }
}

/// A small number.
pub fn small<F: PrimeField>(n: u64) -> (r: F)
    requires
        n <= 5,
    ensures
        r.val() == n,
{
    proof {
        F::lemma_modulus();
        lemma_reduced(F::modulus(), n as int);
    }
    F::from_u64(n)
}

impl<'a, F: PrimeField> Side<'a, F> {
    /// The weighted sums at the five points.
    pub fn evals(&self, r: F) -> (v: (F, F, F, F, F))
        requires
            sides_alike(self.first(), self.second()),
        ensures
            five_evals(v, |x: int| side_claim(self.at(x), r.val())),
    {
        let v0 = self.claim_at(r, F::zero());
        let v2 = self.claim_at(r, small::<F>(2));
        let v3 = self.claim_at(r, small::<F>(3));
        let v4 = self.claim_at(r, small::<F>(4));
        let v5 = self.claim_at(r, small::<F>(5));
        (v0, v2, v3, v4, v5)
    }
}

/// The sum of the numbers on lines is on the line through the sums.
pub proof fn lemma_total_between(p: int, a: Seq<int>, b: Seq<int>, x: int)
    requires
        p > 0,
        a.len() == b.len(),
    ensures
        total(between(p, a, b, x)) % p == (total(a) + x * (total(b) - total(a))) % p,
    decreases a.len(),
{
    let s = between(p, a, b, x);
    if a.len() > 0 {
        assert(s.drop_last() =~= between(p, a.drop_last(), b.drop_last(), x));
        lemma_total_between(p, a.drop_last(), b.drop_last(), x);
        let (ta, tb) = (total(a.drop_last()), total(b.drop_last()));
        let y = a.last() + x * (b.last() - a.last());
        lemma_residue(p, y);
        lemma_cong_add(p, total(s.drop_last()), s.last(), ta + x * (tb - ta), y);
        assert((ta + x * (tb - ta)) + y == (ta + a.last()) + x * ((tb + b.last()) - (ta
            + a.last()))) by (nonlinear_arith)
            requires
                y == a.last() + x * (b.last() - a.last()),
        ;
    } else {
        assert(x * (total(b) - total(a)) == 0) by (nonlinear_arith)
            requires
                total(a) == 0,
                total(b) == 0,
        ;
    }
}

/// The sum of the numbers of a vector.
pub fn total_of<F: PrimeField>(v: &Vec<F>) -> (r: F)
    ensures
        r.val() == total(vals(v@)) % F::modulus(),
{
    let ghost p = F::modulus();
    proof {
        F::lemma_modulus();
        lemma_reduced(p, 0);
        assert(vals(v@).take(0) =~= Seq::<int>::empty());
    }
    let n: usize = v.len();
    let mut acc = F::zero();
    let mut i: usize = 0;
    while i < n
        invariant
            i <= n,
            n == v@.len(),
            p == F::modulus(),
            p > 0,
            acc.val() == total(vals(v@).take(i as int)) % p,
        decreases n - i,
    {
        let ghost before = acc.val();
        acc = acc.plus(v[i]);
        proof {
            let t = vals(v@).take(i as int + 1);
            assert(t.drop_last() =~= vals(v@).take(i as int));
            let z = total(vals(v@).take(i as int));
            lemma_residue(p, z);
            lemma_cong_add(p, before, v@[i as int].val(), z, v@[i as int].val());
        }
        i = i + 1;
    }
    proof {
        assert(vals(v@).take(n as int) =~= vals(v@));
    }
    acc
}

/// The values of a claim at the five points.
pub open spec fn five_evals<F: PrimeField>(
    v: (F, F, F, F, F),
    claim: spec_fn(int) -> int,
) -> bool {
    let p = F::modulus();
    &&& v.0.val() == claim(0) % p
    &&& v.1.val() == claim(2) % p
    &&& v.2.val() == claim(3) % p
    &&& v.3.val() == claim(4) % p
    &&& v.4.val() == claim(5) % p
}

/// The polynomial of a round: at zero and from two on it takes the values of the claim times the
/// equality polynomial, and at one what is left of the running claim.
pub open spec fn round_poly(
    p: int,
    poly: Seq<int>,
    claim: spec_fn(int) -> int,
    rho: int,
    t: int,
) -> bool {
    &&& poly.len() == 6
    &&& peval(poly, 0) % p == (eq_at(p, rho, 0) * claim(0)) % p
    &&& peval(poly, 1) % p == (t - eq_at(p, rho, 0) * claim(0)) % p
    &&& forall|x: int|
        2 <= x <= 5 ==> #[trigger] peval(poly, x) % p == (eq_at(p, rho, x) * claim(x)) % p
}

/// A claim at one point, weighted by the equality polynomial.
fn weighted<F: PrimeField>(rho: F, x: u64, v: F) -> (r: F)
    requires
        x <= 5,
    ensures
        r.val() == (eq_at(F::modulus(), rho.val(), x as int) * v.val()) % F::modulus(),
{
    let ghost p = F::modulus();
    let one = F::one();
    let xf = small::<F>(x);
    let nr = one.minus(rho);
    let nx = one.minus(xf);
    let n = nr.times(nx);
    let y = rho.times(xf);
    let eq = n.plus(y);
    proof {
        F::lemma_modulus();
        let xi = x as int;
        lemma_residue(p, 1 - rho.val());
        lemma_residue(p, 1 - xi);
        lemma_cong_mul(p, nr.val(), nx.val(), 1 - rho.val(), 1 - xi);
        lemma_residue(p, nr.val() * nx.val());
        lemma_residue(p, rho.val() * xi);
        lemma_cong_add(p, n.val(), y.val(), (1 - rho.val()) * (1 - xi), rho.val() * xi);
    }
    eq.times(v)
}

/// The polynomial of a round, from the values of the claim at the five points.
pub fn round_from_evals<F: PrimeField>(
    rho: F,
    t: F,
    v: (F, F, F, F, F),
    Ghost(claim): Ghost<spec_fn(int) -> int>,
) -> (poly: UniPoly<F>)
    requires
        five_evals(v, claim),
    ensures
        round_poly(F::modulus(), poly@, claim, rho.val(), t.val()),
        claim_met(F::modulus(), poly@, t.val()),
{
    let ghost p = F::modulus();
    let e0 = weighted(rho, 0, v.0);
    let e2 = weighted(rho, 2, v.1);
    let e3 = weighted(rho, 3, v.2);
    let e4 = weighted(rho, 4, v.3);
    let e5 = weighted(rho, 5, v.4);
    let e1 = t.minus(e0);
    let mut evals: Vec<F> = Vec::new();
    evals.push(e0);
    evals.push(e1);
    evals.push(e2);
    evals.push(e3);
    evals.push(e4);
    evals.push(e5);
    proof {
        F::lemma_modulus();
    }
    let poly = UniPoly::from_evals(&evals);
    proof {
        let ti = t.val();
        let y = eq_at(p, rho.val(), 0) * claim(0);
        assert(evals@[0].val() == peval(poly@, 0) % p);
        assert(evals@[1].val() == peval(poly@, 1) % p);
        assert(evals@[2].val() == peval(poly@, 2) % p);
        assert(evals@[3].val() == peval(poly@, 3) % p);
        assert(evals@[4].val() == peval(poly@, 4) % p);
        assert(evals@[5].val() == peval(poly@, 5) % p);
        lemma_weighted(p, eq_at(p, rho.val(), 0), v.0.val(), claim(0));
        lemma_weighted(p, eq_at(p, rho.val(), 2), v.1.val(), claim(2));
        lemma_weighted(p, eq_at(p, rho.val(), 3), v.2.val(), claim(3));
        lemma_weighted(p, eq_at(p, rho.val(), 4), v.3.val(), claim(4));
        lemma_weighted(p, eq_at(p, rho.val(), 5), v.4.val(), claim(5));
        lemma_residue(p, y);
        lemma_cong_sub(p, ti, e0.val(), ti, y);
        lemma_cong_add(p, peval(poly@, 0), peval(poly@, 1), y, ti - y);
        F::lemma_val(t);
        lemma_reduced(p, ti);
        assert forall|x: int| 2 <= x <= 5 implies #[trigger] peval(poly@, x) % p == (eq_at(
            p,
            rho.val(),
            x,
        ) * claim(x)) % p by {
            if x == 2 {
            } else if x == 3 {
            } else if x == 4 {
            } else {
                assert(x == 5);
            }
        }
    }
    poly
}

proof fn lemma_weighted(p: int, e: int, v: int, c: int)
    requires
        p > 0,
        v == c % p,
    ensures
        (e * v) % p == (e * c) % p,
{
    lemma_residue(p, c);
    lemma_cong_mul(p, e, v, e, c);
}

/// Where the running claim is what the claims at zero and one add up to, the polynomial of a
/// round is the claim times the equality polynomial, everywhere.
pub proof fn lemma_round_polynomial(
    p: int,
    poly: Seq<int>,
    claim: spec_fn(int) -> int,
    rho: int,
    t: int,
    x: int,
)
    requires
        is_prime(p),
        p > 5,
        poly_of(p, claim, 5),
        round_poly(p, poly, claim, rho, t),
        t % p == (eq_at(p, rho, 0) * claim(0) + eq_at(p, rho, 1) * claim(1)) % p,
    ensures
        peval(poly, x) % p == (eq_at(p, rho, x) * claim(x)) % p,
{
    let h = |x: int| eq_at(p, rho, x) * claim(x);
    assert forall|x: int| #[trigger] h(x) % p == (claim(x) * line(p, 1 - rho, rho, x)) % p by {
        assert((1 - rho) * (1 - x) + rho * x == (1 - rho) + x * (rho - (1 - rho)))
            by (nonlinear_arith);
        let e = eq_at(p, rho, x);
        let c = claim(x);
        assert(e * c == c * e) by (nonlinear_arith);
    }
    lemma_poly_times_line(p, claim, 1 - rho, rho, h, 5);
    let c = choose|c: Seq<int>| #[trigger] represents(p, h, c) && c.len() == 6;
    assert forall|i: int| 0 <= i < 6 implies #[trigger] peval(poly, i) % p == peval(c, i) % p by {
        assert(peval(c, i) % p == h(i) % p);
        if i == 0 {
        } else if i == 1 {
            let y = eq_at(p, rho, 0) * claim(0);
            lemma_cong_sub(p, t, y, y + h(1), y);
        } else {
            assert(2 <= i <= 5);
        }
    }
    lemma_interpolation_unique(p, poly, c, x);
    assert(peval(c, x) % p == h(x) % p);
}

/// The claim that is carried on from such a round is the claim at the challenge.
pub proof fn lemma_carried_claim(
    p: int,
    poly: Seq<int>,
    claim: spec_fn(int) -> int,
    rho: int,
    t: int,
    r_b: int,
    t_out: int,
)
    requires
        is_prime(p),
        p > 5,
        poly_of(p, claim, 5),
        round_poly(p, poly, claim, rho, t),
        t % p == (eq_at(p, rho, 0) * claim(0) + eq_at(p, rho, 1) * claim(1)) % p,
        eq_at(p, rho, r_b) != 0,
        claim_carried(p, poly, eq_at(p, rho, r_b), r_b, t_out),
    ensures
        t_out % p == claim(r_b) % p,
{
    let e = eq_at(p, rho, r_b);
    let c = claim(r_b);
    lemma_round_polynomial(p, poly, claim, rho, t, r_b);
    lemma_residue(p, (1 - rho) * (1 - r_b) + rho * r_b);
    lemma_reduced(p, e);
    assert(e * c == c * e) by (nonlinear_arith);
    lemma_cancel(p, t_out, c, e);
}

pub proof fn lemma_cell_poly(
    p: int,
    a: SideVal,
    b: SideVal,
    r: int,
    k: int,
    h: spec_fn(int) -> int,
)
    requires
        p > 0,
        sides_alike(a, b),
        0 <= k < a.inv.len(),
        forall|x: int| #[trigger] h(x) == cell(side_between(p, a, b, x), r, k),
    ensures
        poly_of(p, h, 3),
{
    let base = |x: int| line(p, a.base[k], b.base[k], x);
    let rest = |x: int| r;
    let sum = |x: int| base(x) + r;
    let prod = |x: int| sum(x) * line(p, a.inv[k], b.inv[k], x);
    let num = |x: int| line(p, a.num[k], b.num[k], x);
    lemma_poly_line(p, a.base[k], b.base[k], base);
    lemma_poly_constant(p, rest, r);
    lemma_poly_pad(p, rest, 1);
    assert forall|x: int| #[trigger] sum(x) % p == (base(x) + 1 * rest(x)) % p by {}
    lemma_poly_add(p, base, 1, rest, sum, 2);
    lemma_poly_times_line(p, sum, a.inv[k], b.inv[k], prod, 2);
    lemma_poly_line(p, a.num[k], b.num[k], num);
    lemma_poly_pad(p, num, 2);
    assert forall|x: int| #[trigger] h(x) % p == (prod(x) + -1 * num(x)) % p by {
        let s = side_between(p, a, b, x);
        assert(s.inv[k] * (s.base[k] + r) == sum(x) * s.inv[k]) by (nonlinear_arith)
            requires
                sum(x) == s.base[k] + r,
        ;
    }
    lemma_poly_add(p, prod, -1, num, h, 3);
}

pub proof fn lemma_row_poly(
    p: int,
    a: SideVal,
    b: SideVal,
    r: int,
    i: int,
    j: nat,
    h: spec_fn(int) -> int,
)
    requires
        p > 0,
        sides_alike(a, b),
        0 <= i < a.eq_right.len(),
        j <= a.eq_left.len(),
        forall|x: int| #[trigger] h(x) == row(side_between(p, a, b, x), r, i, j),
    ensures
        poly_of(p, h, 4),
    decreases j,
{
    if j == 0 {
        lemma_poly_constant(p, h, 0);
        lemma_poly_pad(p, h, 1);
        lemma_poly_pad(p, h, 2);
        lemma_poly_pad(p, h, 3);
    } else {
        let left = a.eq_left.len();
        let right = a.eq_right.len();
        let k = i * left + j - 1;
        assert(0 <= i * left && i * left + left <= left * right) by (nonlinear_arith)
            requires
                0 <= i < right,
                left >= 0,
        ;
        let c = |x: int| cell(side_between(p, a, b, x), r, k);
        let term = |x: int| c(x) * line(p, a.eq_left[j - 1], b.eq_left[j - 1], x);
        let prev = |x: int| row(side_between(p, a, b, x), r, i, (j - 1) as nat);
        lemma_cell_poly(p, a, b, r, k, c);
        lemma_poly_times_line(p, c, a.eq_left[j - 1], b.eq_left[j - 1], term, 3);
        lemma_row_poly(p, a, b, r, i, (j - 1) as nat, prev);
        assert forall|x: int| #[trigger] h(x) % p == (prev(x) + 1 * term(x)) % p by {
            let s = side_between(p, a, b, x);
            assert(s.eq_left.len() == left);
            let e = s.eq_left[j - 1];
            assert(e * c(x) == c(x) * e) by (nonlinear_arith);
        }
        lemma_poly_add(p, prev, 1, term, h, 4);
    }
}

pub proof fn lemma_rows_poly(
    p: int,
    a: SideVal,
    b: SideVal,
    r: int,
    i: nat,
    h: spec_fn(int) -> int,
)
    requires
        p > 0,
        sides_alike(a, b),
        i <= a.eq_right.len(),
        forall|x: int| #[trigger] h(x) == rows(side_between(p, a, b, x), r, i),
    ensures
        poly_of(p, h, 5),
    decreases i,
{
    if i == 0 {
        lemma_poly_constant(p, h, 0);
        lemma_poly_pad(p, h, 1);
        lemma_poly_pad(p, h, 2);
        lemma_poly_pad(p, h, 3);
        lemma_poly_pad(p, h, 4);
    } else {
        let left = a.eq_left.len();
        let c = |x: int| row(side_between(p, a, b, x), r, i - 1, left);
        let term = |x: int| c(x) * line(p, a.eq_right[i - 1], b.eq_right[i - 1], x);
        let prev = |x: int| rows(side_between(p, a, b, x), r, (i - 1) as nat);
        lemma_row_poly(p, a, b, r, i - 1, left, c);
        lemma_poly_times_line(p, c, a.eq_right[i - 1], b.eq_right[i - 1], term, 4);
        lemma_rows_poly(p, a, b, r, (i - 1) as nat, prev);
        assert forall|x: int| #[trigger] h(x) % p == (prev(x) + 1 * term(x)) % p by {
            let s = side_between(p, a, b, x);
            assert(s.eq_left.len() == left);
            let e = s.eq_right[i - 1];
            assert(e * c(x) == c(x) * e) by (nonlinear_arith);
        }
        lemma_poly_add(p, prev, 1, term, h, 5);
    }
}

/// Every cell of a side vanishes.
pub open spec fn cells_vanish(p: int, s: SideVal, r: int) -> bool {
    forall|k: int| 0 <= k < s.inv.len() ==> #[trigger] cell(s, r, k) % p == 0
}

/// The weights of a side are all zero.
pub open spec fn weightless(s: SideVal) -> bool {
    forall|j: int| 0 <= j < s.eq_left.len() ==> #[trigger] s.eq_left[j] == 0
}

pub proof fn lemma_row_vanishes(p: int, s: SideVal, r: int, i: int, j: nat)
    requires
        p > 0,
        side_shape(s),
        0 <= i < s.eq_right.len(),
        j <= s.eq_left.len(),
        cells_vanish(p, s, r) || weightless(s),
    ensures
        row(s, r, i, j) % p == 0,
    decreases j,
{
    lemma_reduced(p, 0);
    if j > 0 {
        lemma_row_vanishes(p, s, r, i, (j - 1) as nat);
        let (left, right) = (s.eq_left.len(), s.eq_right.len());
        let k = i * left + j - 1;
        assert(0 <= i * left && i * left + left <= left * right) by (nonlinear_arith)
            requires
                0 <= i < right,
                left >= 0,
        ;
        let e = s.eq_left[j - 1];
        let c = cell(s, r, k);
        if cells_vanish(p, s, r) {
            assert(c % p == 0);
            lemma_cong_mul(p, e, c, e, 0);
            assert(e * 0 == 0);
        } else {
            assert(e == 0);
            assert(0 * c == 0);
        }
        lemma_cong_add(p, row(s, r, i, (j - 1) as nat), e * c, 0, 0);
    }
}

pub proof fn lemma_rows_vanish(p: int, s: SideVal, r: int, i: nat)
    requires
        p > 0,
        side_shape(s),
        i <= s.eq_right.len(),
        cells_vanish(p, s, r) || weightless(s),
    ensures
        rows(s, r, i) % p == 0,
    decreases i,
{
    lemma_reduced(p, 0);
    if i > 0 {
        lemma_rows_vanish(p, s, r, (i - 1) as nat);
        lemma_row_vanishes(p, s, r, i - 1, s.eq_left.len());
        let e = s.eq_right[i - 1];
        let y = row(s, r, i - 1, s.eq_left.len());
        lemma_cong_mul(p, e, y, e, 0);
        assert(e * 0 == 0);
        lemma_cong_add(p, rows(s, r, (i - 1) as nat), e * y, 0, 0);
    }
}

pub proof fn lemma_between_ends<F: PrimeField>(a: Seq<F>, b: Seq<F>)
    requires
        a.len() == b.len(),
    ensures
        between(F::modulus(), vals(a), vals(b), 0) == vals(a),
        between(F::modulus(), vals(a), vals(b), 1) == vals(b),
{
    let p = F::modulus();
    F::lemma_modulus();
    assert forall|i: int| 0 <= i < a.len() implies #[trigger] vals(a)[i] == line(
        p,
        a[i].val(),
        b[i].val(),
        0,
    ) && vals(b)[i] == line(p, a[i].val(), b[i].val(), 1) by {
        F::lemma_val(a[i]);
        F::lemma_val(b[i]);
        lemma_reduced(p, a[i].val());
        lemma_reduced(p, b[i].val());
    }
    assert(between(p, vals(a), vals(b), 0) =~= vals(a));
    assert(between(p, vals(a), vals(b), 1) =~= vals(b));
}

/// The number at `x` between two numbers is the first one times `1 - x` plus the other one times
/// `x`, place by place.
pub proof fn law_between_mixes(p: int, a: Seq<int>, b: Seq<int>, x: int, i: int)
    requires
        0 <= i < a.len(),
    ensures
        between(p, a, b, x).len() == a.len(),
        between(p, a, b, x)[i] == ((1 - x) * a[i] + x * b[i]) % p,
{
    let (u, v) = (a[i], b[i]);
    assert(u + x * (v - u) == (1 - x) * u + x * v) by (nonlinear_arith);
}

proof fn lemma_row_sum(s: SideVal, r: int, i: int, j: nat)
    ensures
        row(s, r, i, j) == sum(
            j,
            |k: int|
                s.eq_left[k] * (s.inv[i * s.eq_left.len() + k] * (s.base[i * s.eq_left.len() + k]
                    + r) - s.num[i * s.eq_left.len() + k]),
        ),
    decreases j,
{
    if j > 0 {
        lemma_row_sum(s, r, i, (j - 1) as nat);
    }
}

proof fn lemma_rows_sum(s: SideVal, r: int, n: nat)
    ensures
        rows(s, r, n) == sum(
            n,
            |i: int|
                s.eq_right[i] * sum(
                    s.eq_left.len(),
                    |k: int|
                        s.eq_left[k] * (s.inv[i * s.eq_left.len() + k] * (s.base[i
                            * s.eq_left.len() + k] + r) - s.num[i * s.eq_left.len() + k]),
                ),
        ),
    decreases n,
{
    if n > 0 {
        lemma_rows_sum(s, r, (n - 1) as nat);
        lemma_row_sum(s, r, n - 1, s.eq_left.len());
    }
}

/// The claim of a side is the sum over all rows and columns of its grid of the two weights times
/// what the cell there lacks: the inverse times `base + r`, less the numerator.
pub proof fn law_side_claim_sum(s: SideVal, r: int)
    ensures
        side_claim(s, r) == sum(
            s.eq_right.len(),
            |i: int|
                s.eq_right[i] * sum(
                    s.eq_left.len(),
                    |k: int|
                        s.eq_left[k] * (s.inv[i * s.eq_left.len() + k] * (s.base[i
                            * s.eq_left.len() + k] + r) - s.num[i * s.eq_left.len() + k]),
                ),
        ),
{
    lemma_rows_sum(s, r, s.eq_right.len());
}

/// The total of a sequence is the sum of all its numbers.
pub proof fn law_total_sum(s: Seq<int>)
    ensures
        total(s) == sum(s.len(), |i: int| s[i]),
    decreases s.len(),
{
    if s.len() > 0 {
        let t = s.drop_last();
        law_total_sum(t);
        lemma_sum_same(t.len(), |i: int| s[i], |i: int| t[i]);
    }
}

} // verus!
