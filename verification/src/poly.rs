//! Univariate polynomials, as coefficient lists and in a circuit.

use crate::field::{
    is_prime, lemma_cong_add, lemma_cong_diff, lemma_cong_mul, lemma_cong_sub,
    lemma_no_zero_divisors, lemma_reduced, lemma_residue, PrimeField,
};
use crate::frontend::{
    fresh, lemma_at_range, once, unit, AllocatedNum, ConstraintSystem, Layout, LinearCombination,
    Valuation, Variable,
};
use crate::gadgets::{lay_mul_add, enforce_equal, mul_add, nums_at, nums_valid};
use crate::sums::sum;
use vstd::arithmetic::power::pow;
use vstd::prelude::*;

verus! {

/// The representatives of a sequence of field elements.
pub open spec fn vals<F: PrimeField>(s: Seq<F>) -> Seq<int> {
    Seq::new(s.len(), |i: int| s[i].val())
}

/// The value at `x` of the polynomial with the coefficients `c`, constant term first.
pub open spec fn peval(c: Seq<int>, x: int) -> int
    decreases c.len(),
{
    if c.len() == 0 {
        0
    } else {
        c[0] + x * peval(c.drop_first(), x)
    }
}

/// The polynomial `a + k * b`.
pub open spec fn padd(a: Seq<int>, k: int, b: Seq<int>) -> Seq<int> {
    Seq::new(a.len(), |i: int| a[i] + k * b[i])
}

/// The polynomial `b * (X - k)`.
pub open spec fn pmul_root(b: Seq<int>, k: int) -> Seq<int> {
    Seq::new(
        b.len() + 1,
        |i: int|
            (if i == 0 {
                0
            } else {
                b[i - 1]
            }) - (if i < b.len() {
                k * b[i]
            } else {
                0
            }),
    )
}

/// The product of `x - j` over `j < k`.
pub open spec fn falling(x: int, k: nat) -> int
    decreases k,
{
    if k == 0 {
        1
    } else {
        falling(x, (k - 1) as nat) * (x - (k - 1))
    }
}

/// Evaluation is linear.
pub proof fn lemma_peval_add(a: Seq<int>, k: int, b: Seq<int>, x: int)
    requires
        a.len() == b.len(),
    ensures
        peval(padd(a, k, b), x) == peval(a, x) + k * peval(b, x),
    decreases a.len(),
{
    if a.len() > 0 {
        let s = padd(a, k, b);
        assert(s.drop_first() =~= padd(a.drop_first(), k, b.drop_first()));
        lemma_peval_add(a.drop_first(), k, b.drop_first(), x);
        let u = peval(a.drop_first(), x);
        let v = peval(b.drop_first(), x);
        assert((a[0] + k * b[0]) + x * (u + k * v) == (a[0] + x * u) + k * (b[0] + x * v))
            by (nonlinear_arith);
    } else {
        assert(k * 0 == 0) by (nonlinear_arith);
    }
}

/// A zero coefficient at the top changes no value.
pub proof fn lemma_peval_push_zero(c: Seq<int>, x: int)
    ensures
        peval(c.push(0), x) == peval(c, x),
    decreases c.len(),
{
    let s = c.push(0);
    if c.len() == 0 {
        assert(s.drop_first() =~= Seq::<int>::empty());
        assert(x * 0 == 0) by (nonlinear_arith);
        assert(peval(s.drop_first(), x) == 0);
    } else {
        assert(s.drop_first() =~= c.drop_first().push(0));
        lemma_peval_push_zero(c.drop_first(), x);
    }
}

/// Multiplying by `X - k` multiplies values by `x - k`.
pub proof fn lemma_peval_root(b: Seq<int>, k: int, x: int)
    ensures
        peval(pmul_root(b, k), x) == peval(b, x) * (x - k),
{
    let shifted = seq![0int] + b;
    let padded = b.push(0);
    assert(pmul_root(b, k) =~= padd(shifted, -k, padded)) by {
        assert forall|i: int| 0 <= i < b.len() + 1 implies pmul_root(b, k)[i] == padd(
            shifted,
            -k,
            padded,
        )[i] by {
            assert(-k * padded[i] == -(k * padded[i])) by (nonlinear_arith);
            assert(-k * 0 == 0) by (nonlinear_arith);
        }
    }
    lemma_peval_add(shifted, -k, padded, x);
    lemma_peval_push_zero(b, x);
    assert(shifted.drop_first() =~= b);
    assert(0 + x * peval(b, x) + (-k) * peval(b, x) == peval(b, x) * (x - k)) by (nonlinear_arith);
}

/// Congruent coefficients give congruent values.
pub proof fn lemma_peval_cong(p: int, a: Seq<int>, b: Seq<int>, x: int)
    requires
        p > 0,
        a.len() == b.len(),
        forall|i: int| 0 <= i < a.len() ==> #[trigger] a[i] % p == b[i] % p,
    ensures
        peval(a, x) % p == peval(b, x) % p,
    decreases a.len(),
{
    if a.len() > 0 {
        let s = a.drop_first();
        let t = b.drop_first();
        assert forall|i: int| 0 <= i < s.len() implies #[trigger] s[i] % p == t[i] % p by {
            assert(a[i + 1] % p == b[i + 1] % p);
        }
        lemma_peval_cong(p, s, t, x);
        lemma_cong_mul(p, x, peval(s, x), x, peval(t, x));
        assert(a[0] % p == b[0] % p);
        lemma_cong_add(p, a[0], x * peval(s, x), b[0], x * peval(t, x));
    }
}

/// Congruent points give congruent values.
pub proof fn lemma_peval_point(p: int, c: Seq<int>, x: int, y: int)
    requires
        p > 0,
        x % p == y % p,
    ensures
        peval(c, x) % p == peval(c, y) % p,
    decreases c.len(),
{
    if c.len() > 0 {
        lemma_peval_point(p, c.drop_first(), x, y);
        lemma_cong_mul(p, x, peval(c.drop_first(), x), y, peval(c.drop_first(), y));
        lemma_cong_add(
            p,
            c[0],
            x * peval(c.drop_first(), x),
            c[0],
            y * peval(c.drop_first(), y),
        );
    }
}

proof fn lemma_falling_vanishes(x: int, k: nat)
    requires
        0 <= x < k,
    ensures
        falling(x, k) == 0,
    decreases k,
{
    if x == k - 1 {
        assert(falling(x, (k - 1) as nat) * 0 == 0) by (nonlinear_arith);
    } else {
        lemma_falling_vanishes(x, (k - 1) as nat);
        assert(0 * (x - (k - 1)) == 0) by (nonlinear_arith);
    }
}

proof fn lemma_falling_nonzero(p: int, x: int, k: nat)
    requires
        is_prime(p),
        k <= x < p,
    ensures
        falling(x, k) % p != 0,
    decreases k,
{
    if k == 0 {
        lemma_reduced(p, 1);
    } else {
        lemma_falling_nonzero(p, x, (k - 1) as nat);
        lemma_reduced(p, x - (k - 1));
        if falling(x, k) % p == 0 {
            lemma_no_zero_divisors(p, falling(x, (k - 1) as nat), x - (k - 1));
        }
    }
}

/// The quotient of a polynomial by `X - r`, without the remainder.
pub open spec fn pdiv(c: Seq<int>, r: int) -> Seq<int>
    decreases c.len(),
{
    if c.len() <= 1 {
        Seq::empty()
    } else {
        seq![peval(c.drop_first(), r)] + pdiv(c.drop_first(), r)
    }
}

proof fn lemma_pdiv(c: Seq<int>, r: int, x: int)
    requires
        c.len() > 0,
    ensures
        pdiv(c, r).len() == c.len() - 1,
        peval(c, x) - peval(c, r) == (x - r) * peval(pdiv(c, r), x),
    decreases c.len(),
{
    let t = c.drop_first();
    if c.len() == 1 {
        assert(peval(t, x) == 0 && peval(t, r) == 0);
        assert(x * 0 == 0 && r * 0 == 0 && (x - r) * 0 == 0) by (nonlinear_arith);
    } else {
        lemma_pdiv(t, r, x);
        let q = pdiv(c, r);
        assert(q.drop_first() =~= pdiv(t, r));
        let tx = peval(t, x);
        let tr = peval(t, r);
        let qt = peval(pdiv(t, r), x);
        assert((c[0] + x * tx) - (c[0] + r * tr) == (x - r) * (tr + x * qt)) by (nonlinear_arith)
            requires
                tx - tr == (x - r) * qt,
        ;
    }
}

proof fn lemma_vanishing(p: int, c: Seq<int>, x: int)
    requires
        is_prime(p),
        c.len() <= p,
        forall|i: int| 0 <= i < c.len() ==> #[trigger] peval(c, i) % p == 0,
    ensures
        peval(c, x) % p == 0,
    decreases c.len(),
{
    if c.len() > 0 {
        let r = c.len() - 1;
        let q = pdiv(c, r);
        lemma_pdiv(c, r, 0);
        assert forall|i: int| 0 <= i < q.len() implies #[trigger] peval(q, i) % p == 0 by {
            lemma_pdiv(c, r, i);
            assert(peval(c, i) % p == 0);
            assert(peval(c, r) % p == 0);
            lemma_cong_diff(p, peval(c, i), peval(c, r));
            lemma_no_zero_divisors(p, i - r, peval(q, i));
            lemma_reduced(p, i);
            lemma_reduced(p, r);
            lemma_cong_diff(p, i, r);
        }
        lemma_vanishing(p, q, x);
        lemma_pdiv(c, r, x);
        assert(peval(c, r) % p == 0);
        lemma_reduced(p, 0);
        lemma_cong_mul(p, x - r, peval(q, x), x - r, 0);
        assert((x - r) * 0 == 0) by (nonlinear_arith);
        lemma_cong_diff(p, peval(c, x), peval(c, r));
    } else {
        lemma_reduced(p, 0);
    }
}

/// Two polynomials of less than `n` degrees that agree at `0`, `1` and so on up to `n - 1`
/// agree everywhere.
pub proof fn lemma_interpolation_unique(p: int, a: Seq<int>, b: Seq<int>, x: int)
    requires
        is_prime(p),
        a.len() == b.len(),
        a.len() <= p,
        forall|i: int| 0 <= i < a.len() ==> #[trigger] peval(a, i) % p == peval(b, i) % p,
    ensures
        peval(a, x) % p == peval(b, x) % p,
{
    let d = padd(a, -1, b);
    assert forall|i: int| 0 <= i < d.len() implies #[trigger] peval(d, i) % p == 0 by {
        lemma_peval_add(a, -1, b, i);
        assert(peval(a, i) % p == peval(b, i) % p);
        lemma_cong_diff(p, peval(a, i), peval(b, i));
    }
    lemma_vanishing(p, d, x);
    lemma_peval_add(a, -1, b, x);
    lemma_cong_diff(p, peval(a, x), peval(b, x));
}

/// A polynomial given by its coefficients, constant term first.
pub struct UniPoly<F: PrimeField> {
    /// The coefficients.
    pub coeffs: Vec<F>,
}

impl<F: PrimeField> UniPoly<F> {
    /// The representatives of the coefficients.
    pub open spec fn view(&self) -> Seq<int> {
        vals(self.coeffs@)
    }

    /// The coefficients, constant term first.
    pub fn coeffs(&self) -> (r: &Vec<F>)
        ensures
            vals(r@) == self@,
    {
        &self.coeffs
    }

    /// The value at a point.
    pub fn evaluate(&self, x: &F) -> (r: F)
        ensures
            r.val() == peval(self@, x.val()) % F::modulus(),
    {
        let ghost p = F::modulus();
        let n: usize = self.coeffs.len();
        let mut acc = F::zero();
        let mut i: usize = n;
        proof {
            F::lemma_modulus();
            lemma_reduced(p, 0);
            assert(self@.skip(n as int) =~= Seq::empty());
        }
        while i > 0
            invariant
                i <= n,
                n == self.coeffs@.len(),
                p == F::modulus(),
                p > 0,
                acc.val() == peval(self@.skip(i as int), x.val()) % p,
            decreases i,
        {
            i = i - 1;
            let ghost before = acc.val();
            acc = acc.times(*x).plus(self.coeffs[i]);
            proof {
                let s = self@.skip(i as int);
                assert(s.drop_first() =~= self@.skip(i as int + 1));
                let t = peval(s.drop_first(), x.val());
                let c = self.coeffs@[i as int].val();
                lemma_residue(p, t);
                lemma_cong_mul(p, before, x.val(), t, x.val());
                lemma_residue(p, before * x.val());
                lemma_cong_add(p, (before * x.val()) % p, c, t * x.val(), c);
                assert(t * x.val() + c == s[0] + x.val() * t) by (nonlinear_arith)
                    requires
                        s[0] == c,
                ;
            }
        }
        proof {
            assert(self@.skip(0) =~= self@);
        }
        acc
    }

    /// The value at zero.
    pub fn eval_at_zero(&self) -> (r: F)
        ensures
            r.val() == peval(self@, 0) % F::modulus(),
    {
        proof {
            F::lemma_modulus();
            lemma_reduced(F::modulus(), 0);
        }
        self.evaluate(&F::zero())
    }

    /// The value at one.
    pub fn eval_at_one(&self) -> (r: F)
        ensures
            r.val() == peval(self@, 1) % F::modulus(),
    {
        self.evaluate(&F::one())
    }

    /// The polynomial of least degree with the given values at `0`, `1`, `2` and so on.
    pub fn from_evals(evals: &Vec<F>) -> (r: Self)
        requires
            evals@.len() <= F::modulus(),
        ensures
            r@.len() == evals@.len(),
            forall|i: int|
                0 <= i < evals@.len() ==> #[trigger] evals@[i].val() == peval(r@, i)
                    % F::modulus(),
    {
        let ghost p = F::modulus();
        let n: usize = evals.len();
        let mut poly: Vec<F> = Vec::new();
        let mut basis: Vec<F> = Vec::new();
        basis.push(F::one());
        let mut k: usize = 0;
        let mut node = F::zero();
        proof {
            F::lemma_modulus();
            assert forall|x: int| #[trigger] peval(vals(basis@), x) % p == falling(x, 0) % p by {
                assert(vals(basis@).drop_first() =~= Seq::<int>::empty());
                assert(x * 0 == 0) by (nonlinear_arith);
                assert(peval(vals(basis@).drop_first(), x) == 0);
            }
            lemma_reduced(p, 0);
        }
        while k < n
            invariant
                k <= n,
                n == evals@.len(),
                n <= p,
                p == F::modulus(),
                is_prime(p),
                poly@.len() == k,
                basis@.len() == k + 1,
                node.val() == (k as int) % p,
                forall|x: int| #[trigger]
                    peval(vals(basis@), x) % p == falling(x, k as nat) % p,
                forall|i: int|
                    0 <= i < k ==> #[trigger] evals@[i].val() == peval(vals(poly@), i) % p,
            decreases n - k,
        {
            let ghost kk = k as int;
            proof {
                lemma_reduced(p, kk);
            }
            let ghost old_poly = vals(poly@);
            let ghost old_basis = vals(basis@);
            let here = UniPoly { coeffs: poly };
            let v = here.evaluate(&node);
            poly = here.coeffs;
            let factor = UniPoly { coeffs: basis };
            let b = factor.evaluate(&node);
            basis = factor.coeffs;
            proof {
                lemma_falling_nonzero(p, kk, k as nat);
                assert(peval(old_basis, kk) % p == falling(kk, k as nat) % p);
            }
            let inverse = match b.invert() {
                Some(i) => i,
                None => F::zero(),
            };
            let c = evals[k].minus(v).times(inverse);
            poly.push(F::zero());
            assert(vals(poly@) =~= old_poly.push(0));
            let next = add_scaled(&poly, c, &basis);
            let raised = mul_root(&basis, node);
            proof {
                let np = vals(next@);
                let e = evals@[kk].val();
                let cc = c.val();
                assert forall|i: int| 0 <= i <= kk implies #[trigger] evals@[i].val() == peval(
                    np,
                    i,
                ) % p by {
                    lemma_peval_cong(p, np, padd(old_poly.push(0), cc, old_basis), i);
                    lemma_peval_add(old_poly.push(0), cc, old_basis, i);
                    lemma_peval_push_zero(old_poly, i);
                    let pi = peval(old_poly, i);
                    let bi = peval(old_basis, i);
                    F::lemma_val(evals@[i]);
                    if i < kk {
                        assert(bi % p == falling(i, k as nat) % p);
                        lemma_falling_vanishes(i, k as nat);
                        lemma_cong_mul(p, cc, bi, cc, 0);
                        lemma_cong_add(p, pi, cc * bi, pi, cc * 0);
                        assert(cc * 0 == 0) by (nonlinear_arith);
                    } else {
                        // cc * bi is congruent to e - v.
                        let d = (e - v.val()) % p;
                        let inv = inverse.val();
                        lemma_residue(p, d * inv);
                        lemma_residue(p, bi);
                        lemma_cong_mul(p, cc, bi, d * inv, b.val());
                        assert((d * inv) * b.val() == d * (b.val() * inv)) by (nonlinear_arith);
                        lemma_reduced(p, 1);
                        lemma_cong_mul(p, d, b.val() * inv, d, 1);
                        assert(d * 1 == d);
                        lemma_residue(p, e - v.val());
                        assert((cc * bi) % p == (e - v.val()) % p);
                        lemma_residue(p, pi);
                        lemma_cong_add(p, pi, cc * bi, v.val(), e - v.val());
                        lemma_reduced(p, e);
                    }
                }
                assert forall|x: int| #[trigger] peval(vals(raised@), x) % p == falling(
                    x,
                    (k + 1) as nat,
                ) % p by {
                    lemma_peval_cong(p, vals(raised@), pmul_root(old_basis, kk), x);
                    lemma_peval_root(old_basis, kk, x);
                    assert(peval(old_basis, x) % p == falling(x, k as nat) % p);
                    lemma_cong_mul(p, peval(old_basis, x), x - kk, falling(x, k as nat), x - kk);
                }
            }
            poly = next;
            basis = raised;
            proof {
                lemma_cong_add(p, node.val(), 1, kk, 1);
            }
            node = node.plus(F::one());
            k = k + 1;
        }
        UniPoly { coeffs: poly }
    }
}

fn add_scaled<F: PrimeField>(a: &Vec<F>, k: F, b: &Vec<F>) -> (r: Vec<F>)
    requires
        a@.len() == b@.len(),
    ensures
        r@.len() == a@.len(),
        forall|i: int|
            0 <= i < a@.len() ==> #[trigger] vals(r@)[i] % F::modulus() == padd(
                vals(a@),
                k.val(),
                vals(b@),
            )[i] % F::modulus(),
{
    let ghost p = F::modulus();
    let n: usize = a.len();
    let mut r: Vec<F> = Vec::new();
    let mut i: usize = 0;
    while i < n
        invariant
            i <= n,
            n == a@.len(),
            n == b@.len(),
            p == F::modulus(),
            r@.len() == i,
            forall|j: int|
                0 <= j < i ==> #[trigger] r@[j].val() % p == (a@[j].val() + k.val() * b@[j].val())
                    % p,
        decreases n - i,
    {
        let x = a[i].plus(k.times(b[i]));
        proof {
            F::lemma_modulus();
            let y = k.val() * b@[i as int].val();
            let a0 = a@[i as int].val();
            lemma_residue(p, y);
            lemma_cong_add(p, a0, y % p, a0, y);
            lemma_residue(p, a0 + y % p);
        }
        r.push(x);
        i = i + 1;
    }
    proof {
        assert forall|j: int| 0 <= j < a@.len() implies #[trigger] vals(r@)[j] % p == padd(
            vals(a@),
            k.val(),
            vals(b@),
        )[j] % p by {
            assert(r@[j].val() % p == (a@[j].val() + k.val() * b@[j].val()) % p);
        }
    }
    r
}

fn mul_root<F: PrimeField>(b: &Vec<F>, k: F) -> (r: Vec<F>)
    ensures
        r@.len() == b@.len() + 1,
        forall|i: int|
            0 <= i < r@.len() ==> #[trigger] vals(r@)[i] % F::modulus() == pmul_root(
                vals(b@),
                k.val(),
            )[i] % F::modulus(),
{
    let ghost p = F::modulus();
    let n: usize = b.len();
    let mut r: Vec<F> = Vec::new();
    let mut i: usize = 0;
    let mut below = F::zero();
    while i < n
        invariant
            i <= n,
            n == b@.len(),
            p == F::modulus(),
            r@.len() == i,
            below.val() == if i == 0 {
                0
            } else {
                b@[i as int - 1].val()
            },
            forall|j: int|
                0 <= j < i ==> #[trigger] r@[j].val() % p == pmul_root(vals(b@), k.val())[j] % p,
        decreases n - i,
    {
        let x = below.minus(k.times(b[i]));
        proof {
            F::lemma_modulus();
            let y = k.val() * b@[i as int].val();
            lemma_residue(p, y);
            lemma_cong_sub(p, below.val(), y % p, below.val(), y);
            lemma_residue(p, below.val() - y % p);
        }
        r.push(x);
        below = b[i];
        i = i + 1;
    }
    r.push(below);
    proof {
        assert forall|j: int| 0 <= j < r@.len() implies #[trigger] vals(r@)[j] % p == pmul_root(
            vals(b@),
            k.val(),
        )[j] % p by {
            if j < n {
                assert(r@[j].val() % p == pmul_root(vals(b@), k.val())[j] % p);
            }
        }
    }
    r
}

/// A polynomial whose coefficients are numbers of a circuit.
pub struct AllocatedUniPoly<F: PrimeField> {
    /// The coefficients, constant term first.
    pub coeffs: Vec<AllocatedNum<F>>,
}

impl<F: PrimeField> AllocatedUniPoly<F> {
    /// The coefficients under a valuation.
    pub open spec fn at(self, e: Valuation) -> Seq<int> {
        nums_at(self.coeffs@, e)
    }

    /// The coefficients belong to the system.
    pub open spec fn valid(self, cs: ConstraintSystem<F>) -> bool {
        nums_valid(cs, self.coeffs@)
    }

    /// Adds a polynomial of the given degree; coefficients that are not given are zero.
    pub fn allocate(cs: &mut ConstraintSystem<F>, degree: usize, poly: Option<&UniPoly<F>>) -> (r:
        Self)
        requires
            old(cs).wf(),
            degree < usize::MAX,
            poly is Some ==> poly->Some_0@.len() <= degree + 1,
        ensures
            old(cs).grows(*final(cs)),
            r.valid(*final(cs)),
            r.coeffs@.len() == degree + 1,
            forall|e: Valuation| #[trigger] final(cs).admits(e) == old(cs).admits(e),
            final(cs).satisfied() == old(cs).satisfied(),
            old(cs).records() ==> r.at(Valuation::Recorded) == padded_poly(
                match poly {
                    Some(q) => q@,
                    None => Seq::empty(),
                },
                (degree + 1) as nat,
            ),
            final(cs).layout() == old(cs).layout().more((degree + 1) as nat),
            r.at(Valuation::Names) == fresh(old(cs).layout().aux, (degree + 1) as nat),
    {
        let ghost before = *cs;
        let ghost given = match poly {
            Some(q) => q@,
            None => Seq::empty(),
        };
        let n: usize = degree + 1;
        let mut coeffs: Vec<AllocatedNum<F>> = Vec::new();
        let mut i: usize = 0;
        while i < n
            invariant
                i <= n,
                n == degree + 1,
                before.wf(),
                before.grows(*cs),
                coeffs@.len() == i,
                nums_valid(*cs, coeffs@),
                given == (match poly {
                    Some(q) => q@,
                    None => Seq::empty(),
                }),
                forall|e: Valuation| #[trigger] cs.admits(e) == before.admits(e),
                cs.satisfied() == before.satisfied(),
                before.records() ==> forall|j: int|
                    0 <= j < i ==> (#[trigger] coeffs@[j]).at(Valuation::Recorded) == padded_poly(
                        given,
                        n as nat,
                    )[j],
                cs.layout() == before.layout().more(i as nat),
                forall|j: int|
                    0 <= j < i ==> (#[trigger] coeffs@[j]).at(Valuation::Names)
                        == before.layout().aux + j,
            decreases n - i,
        {
            let v = match poly {
                Some(q) => {
                    if i < q.coeffs.len() {
                        q.coeffs[i]
                    } else {
                        F::zero()
                    }
                },
                None => F::zero(),
            };
            let x = AllocatedNum::alloc_value(cs, v);
            coeffs.push(x);
            i = i + 1;
        }
        let r = AllocatedUniPoly { coeffs };
        proof {
            assert(r.at(Valuation::Names) =~= fresh(before.layout().aux, n as nat));
            if before.records() {
                assert(r.at(Valuation::Recorded) =~= padded_poly(given, n as nat));
            }
        }
        r
    }

    /// Demands that the values at zero and at one add up to `claim`.
    pub fn check_poly_zero_poly_one_with(
        &self,
        cs: &mut ConstraintSystem<F>,
        claim: &AllocatedNum<F>,
    )
        requires
            old(cs).wf(),
            self.valid(*old(cs)),
            old(cs).valid(*claim),
        ensures
            old(cs).grows(*final(cs)),
            forall|w: spec_fn(Variable) -> int| #[trigger]
                final(cs).met_by(w) <==> old(cs).met_by(w) && claim_met(
                    F::modulus(),
                    self.at(Valuation::Assigned(w)),
                    claim.at(Valuation::Assigned(w)),
                ),
            old(cs).records() ==> (final(cs).satisfied() <==> old(cs).satisfied() && claim_met(
                F::modulus(),
                self.at(Valuation::Recorded),
                claim.at(Valuation::Recorded),
            )),
            final(cs).layout() == lay_claim_met(
                old(cs).layout(),
                self.at(Valuation::Names),
                claim.at(Valuation::Names),
            ),
    {
        let ghost p = F::modulus();
        let n: usize = self.coeffs.len();
        let mut lc = LinearCombination::zero();
        if n > 0 {
            lc = LinearCombination::of(&self.coeffs[0]);
        }
        let mut i: usize = 0;
        proof {
            F::lemma_modulus();
            lemma_reduced(p, 0);
            assert forall|e: Valuation| e !is Names implies #[trigger] lc.at(e) == (peval(
                self.at(e),
                0,
            ) + psum(
                self.at(e),
                0,
            )) % p by {
                assert(0 * peval(self.at(e).drop_first(), 0) == 0);
                if n > 0 {
                    lemma_at_range(self.coeffs@[0], e);
                    lemma_reduced(p, self.coeffs@[0].at(e));
                }
            }
        }
        while i < n
            invariant
                i <= n,
                n == self.coeffs@.len(),
                p == F::modulus(),
                p > 0,
                self.valid(*cs),
                lc.valid(*cs),
                forall|e: Valuation|
                    e !is Names ==> #[trigger] lc.at(e) == (peval(self.at(e), 0) + psum(
                        self.at(e),
                        i as nat,
                    )) % p,
                lc.laid() == endpoint_terms(self.at(Valuation::Names), i as nat),
            decreases n - i,
        {
            let ghost before = lc;
            lc = lc.plus(&self.coeffs[i]);
            proof {
                assert forall|e: Valuation| e !is Names implies #[trigger] lc.at(e) == (peval(
                    self.at(e),
                    0,
                ) + psum(
                    self.at(e),
                    (i + 1) as nat,
                )) % p by {
                    let s = peval(self.at(e), 0) + psum(self.at(e), i as nat);
                    let c = self.coeffs@[i as int].at(e);
                    assert(before.at(e) == s % p);
                    lemma_residue(p, s);
                    lemma_cong_add(p, s % p, c, s, c);
                }
            }
            i = i + 1;
        }
        let target = LinearCombination::of(claim);
        enforce_equal(cs, lc, target);
        proof {
            assert forall|e: Valuation|
                e !is Names implies (lc.at(e) == target.at(e) <==> #[trigger] claim_met(
                p,
                self.at(e),
                claim.at(e),
            )) by {
                lemma_psum(self.at(e), n as nat);
                assert(self.at(e).take(n as int) =~= self.at(e));
                assert(target.at(e) == claim.at(e));
                assert(lc.at(e) == (peval(self.at(e), 0) + psum(self.at(e), n as nat)) % p);
            }
        }
    }

    /// The value at a point.
    pub fn evaluate(&self, cs: &mut ConstraintSystem<F>, x: &AllocatedNum<F>) -> (r: AllocatedNum<
        F,
    >)
        requires
            old(cs).wf(),
            self.valid(*old(cs)),
            old(cs).valid(*x),
            self.coeffs@.len() > 0,
        ensures
            old(cs).grows(*final(cs)),
            final(cs).valid(r),
            forall|e: Valuation| #[trigger]
                final(cs).admits(e) ==> r.at(e) == peval(self.at(e), x.at(e)) % F::modulus(),
            old(cs).records() ==> final(cs).satisfied() == old(cs).satisfied(),
            final(cs).layout() == lay_evaluate(
                F::modulus(),
                old(cs).layout(),
                self.at(Valuation::Names),
                x.at(Valuation::Names),
            ),
            r.at(Valuation::Names) == evaluated_name(
                old(cs).layout(),
                self.at(Valuation::Names),
            ),
    {
        let ghost p = F::modulus();
        let ghost before = *cs;
        let n: usize = self.coeffs.len();
        let mut i: usize = n - 1;
        let mut acc = self.coeffs[i];
        proof {
            F::lemma_modulus();
            assert forall|e: Valuation|
                e !is Names implies acc.at(e) == #[trigger] peval(
                self.at(e).skip(i as int),
                x.at(e),
            ) % p by {
                let s = self.at(e).skip(i as int);
                assert(s.drop_first() =~= Seq::<int>::empty());
                assert(x.at(e) * 0 == 0) by (nonlinear_arith);
                assert(peval(s.drop_first(), x.at(e)) == 0);
                lemma_at_range(acc, e);
                lemma_reduced(p, acc.at(e));
            }
        }
        while i > 0
            invariant
                i < n,
                n == self.coeffs@.len(),
                p == F::modulus(),
                p > 0,
                before.wf(),
                before.grows(*cs),
                self.valid(before),
                before.valid(*x),
                cs.valid(acc),
                forall|e: Valuation| #[trigger]
                    cs.admits(e) ==> acc.at(e) == peval(self.at(e).skip(i as int), x.at(e)) % p,
                before.records() ==> cs.satisfied() == before.satisfied(),
                cs.layout() == lay_horner(
                    p,
                    before.layout(),
                    self.at(Valuation::Names),
                    x.at(Valuation::Names),
                    (n - 1 - i) as nat,
                ),
                acc.at(Valuation::Names) == horner_name(
                    before.layout(),
                    self.at(Valuation::Names),
                    (n - 1 - i) as nat,
                ),
                cs.layout().aux == before.layout().aux + (n - 1 - i),
            decreases i,
        {
            i = i - 1;
            let ghost middle = *cs;
            let ghost last = acc;
            let a = LinearCombination::of(&acc);
            let b = LinearCombination::of(x);
            proof {
                assert(before.valid(self.coeffs@[i as int]));
            }
            acc = mul_add(cs, a, b, &self.coeffs[i]);
            proof {
                assert forall|e: Valuation| #[trigger] cs.admits(e) implies acc.at(e) == peval(
                    self.at(e).skip(i as int),
                    x.at(e),
                ) % p by {
                    assert(middle.admits(e));
                    assert(a.at(e) == last.at(e) && b.at(e) == x.at(e));
                    let s = self.at(e).skip(i as int);
                    assert(s.drop_first() =~= self.at(e).skip(i as int + 1));
                    let t = peval(s.drop_first(), x.at(e));
                    let c = self.coeffs@[i as int].at(e);
                    lemma_residue(p, t);
                    lemma_cong_mul(p, last.at(e), x.at(e), t, x.at(e));
                    lemma_cong_add(p, last.at(e) * x.at(e), c, t * x.at(e), c);
                    assert(t * x.at(e) + c == s[0] + x.at(e) * t) by (nonlinear_arith)
                        requires
                            s[0] == c,
                    ;
                }
            }
        }
        proof {
            assert forall|e: Valuation| #[trigger] cs.admits(e) implies acc.at(e) == peval(
                self.at(e),
                x.at(e),
            ) % p by {
                assert(self.at(e).skip(0) =~= self.at(e));
            }
        }
        acc
    }
}

/// The first coefficient, and the first `n` coefficients.
pub open spec fn endpoint_terms(c: Seq<int>, n: nat) -> Seq<(int, int)>
    decreases n,
{
    if n == 0 {
        if c.len() > 0 {
            once(c[0])
        } else {
            Seq::empty()
        }
    } else {
        endpoint_terms(c, (n - 1) as nat).push((c[n - 1], 1int))
    }
}

/// What a system becomes when the values of a polynomial at zero and at one are bound to a claim.
pub open spec fn lay_claim_met(l: Layout, c: Seq<int>, claim: int) -> Layout {
    l.row(endpoint_terms(c, c.len()), once(unit()), once(claim))
}

/// The number that stands for a polynomial at a point after `n` steps, from the highest
/// coefficient down.
pub open spec fn horner_name(l: Layout, c: Seq<int>, n: nat) -> int {
    if n == 0 {
        c.last()
    } else {
        l.aux + n - 1
    }
}

/// What a system becomes when a polynomial is evaluated for `n` steps.
pub open spec fn lay_horner(p: int, l: Layout, c: Seq<int>, x: int, n: nat) -> Layout
    decreases n,
{
    if n == 0 {
        l
    } else {
        lay_mul_add(
            p,
            lay_horner(p, l, c, x, (n - 1) as nat),
            once(horner_name(l, c, (n - 1) as nat)),
            once(x),
            c[c.len() - 1 - n],
        )
    }
}

/// What a system becomes when a polynomial is evaluated.
pub open spec fn lay_evaluate(p: int, l: Layout, c: Seq<int>, x: int) -> Layout {
    lay_horner(p, l, c, x, (c.len() - 1) as nat)
}

/// The number that stands for the value of a polynomial.
pub open spec fn evaluated_name(l: Layout, c: Seq<int>) -> int {
    horner_name(l, c, (c.len() - 1) as nat)
}

/// The values of a polynomial at zero and at one add up to `claim`.
pub open spec fn claim_met(p: int, c: Seq<int>, claim: int) -> bool {
    (peval(c, 0) + peval(c, 1)) % p == claim
}

/// A coefficient list filled up with zeros.
pub open spec fn padded_poly(c: Seq<int>, n: nat) -> Seq<int> {
    Seq::new(
        n,
        |i: int|
            if i < c.len() {
                c[i]
            } else {
                0
            },
    )
}

spec fn psum(c: Seq<int>, n: nat) -> int
    decreases n,
{
    if n == 0 {
        0
    } else {
        psum(c, (n - 1) as nat) + c[n - 1]
    }
}

proof fn lemma_psum_front(c: Seq<int>, n: nat)
    requires
        0 < n <= c.len(),
    ensures
        psum(c, n) == c[0] + psum(c.drop_first(), (n - 1) as nat),
    decreases n,
{
    if n > 1 {
        lemma_psum_front(c, (n - 1) as nat);
    } else {
        assert(psum(c, 0) == 0);
    }
}

proof fn lemma_psum(c: Seq<int>, n: nat)
    requires
        n == c.len(),
    ensures
        psum(c, n) == peval(c, 1),
    decreases n,
{
    if n > 0 {
        lemma_psum_front(c, n);
        lemma_psum(c.drop_first(), (n - 1) as nat);
    }
}

proof fn lemma_sum_shift(n: nat, f: spec_fn(int) -> int, g: spec_fn(int) -> int, x: int)
    requires
        forall|i: int| 0 <= i < n ==> #[trigger] f(i + 1) == x * g(i),
    ensures
        sum(n + 1, f) == f(0) + x * sum(n, g),
    decreases n,
{
    if n == 0 {
        assert(sum(1, f) == sum(0, f) + f(0));
        assert(x * sum(0, g) == 0) by (nonlinear_arith)
            requires
                sum(0, g) == 0,
        ;
    } else {
        let m = (n - 1) as nat;
        lemma_sum_shift(m, f, g, x);
        assert(f(m as int + 1) == x * g(m as int));
        assert(x * (sum(m, g) + g(m as int)) == x * sum(m, g) + x * g(m as int))
            by (nonlinear_arith);
    }
}

/// The value of a polynomial is the sum of every coefficient times the power of the point that it
/// stands at.
pub proof fn law_peval_sum(c: Seq<int>, x: int)
    ensures
        peval(c, x) == sum(c.len(), |i: int| c[i] * pow(x, i as nat)),
    decreases c.len(),
{
    if c.len() > 0 {
        let t = c.drop_first();
        law_peval_sum(t, x);
        let f = |i: int| c[i] * pow(x, i as nat);
        let g = |i: int| t[i] * pow(x, i as nat);
        assert forall|i: int| 0 <= i < t.len() implies #[trigger] f(i + 1) == x * g(i) by {
            reveal(pow);
            let k = pow(x, i as nat);
            assert(pow(x, (i + 1) as nat) == x * k);
            assert(t[i] * (x * k) == x * (t[i] * k)) by (nonlinear_arith);
        }
        lemma_sum_shift(t.len(), f, g, x);
        reveal(pow);
        assert(c[0] * 1 == c[0]);
    }
}

} // verus!
