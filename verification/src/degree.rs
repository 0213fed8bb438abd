//! Functions that are polynomials of bounded degree modulo a prime.

use crate::circuit::relation::line;
use crate::field::{lemma_cong_add, lemma_cong_mul, lemma_residue};
use crate::poly::{lemma_peval_add, lemma_peval_push_zero, padd, peval};
use vstd::prelude::*;

verus! {

/// The polynomial with the coefficients `c` takes the values of `f`.
pub open spec fn represents(p: int, f: spec_fn(int) -> int, c: Seq<int>) -> bool {
    forall|x: int| #[trigger] peval(c, x) % p == f(x) % p
}

/// `f` is a polynomial with `n` coefficients.
pub open spec fn poly_of(p: int, f: spec_fn(int) -> int, n: nat) -> bool {
    exists|c: Seq<int>| #[trigger] represents(p, f, c) && c.len() == n
}

/// A constant is a polynomial with one coefficient.
pub proof fn lemma_poly_constant(p: int, f: spec_fn(int) -> int, k: int)
    requires
        p > 0,
        forall|x: int| #[trigger] f(x) == k,
    ensures
        poly_of(p, f, 1),
{
    let c = seq![k];
    assert forall|x: int| #[trigger] peval(c, x) % p == f(x) % p by {
        assert(c.drop_first() =~= Seq::<int>::empty());
        assert(peval(c.drop_first(), x) == 0);
        assert(x * 0 == 0);
        assert(f(x) == k);
    }
    assert(represents(p, f, c));
}

/// A polynomial has one coefficient more, which is zero.
pub proof fn lemma_poly_pad(p: int, f: spec_fn(int) -> int, n: nat)
    requires
        poly_of(p, f, n),
    ensures
        poly_of(p, f, n + 1),
{
    let c = choose|c: Seq<int>| #[trigger] represents(p, f, c) && c.len() == n;
    let d = c.push(0);
    assert forall|x: int| #[trigger] peval(d, x) % p == f(x) % p by {
        lemma_peval_push_zero(c, x);
        assert(peval(c, x) % p == f(x) % p);
    }
    assert(represents(p, f, d));
}

/// A combination of two polynomials is one.
pub proof fn lemma_poly_add(
    p: int,
    f: spec_fn(int) -> int,
    k: int,
    g: spec_fn(int) -> int,
    h: spec_fn(int) -> int,
    n: nat,
)
    requires
        p > 0,
        poly_of(p, f, n),
        poly_of(p, g, n),
        forall|x: int| #[trigger] h(x) % p == (f(x) + k * g(x)) % p,
    ensures
        poly_of(p, h, n),
{
    let a = choose|c: Seq<int>| #[trigger] represents(p, f, c) && c.len() == n;
    let b = choose|c: Seq<int>| #[trigger] represents(p, g, c) && c.len() == n;
    let d = padd(a, k, b);
    assert forall|x: int| #[trigger] peval(d, x) % p == h(x) % p by {
        lemma_peval_add(a, k, b, x);
        assert(peval(a, x) % p == f(x) % p);
        assert(peval(b, x) % p == g(x) % p);
        lemma_cong_mul(p, k, peval(b, x), k, g(x));
        lemma_cong_add(p, peval(a, x), k * peval(b, x), f(x), k * g(x));
        assert(h(x) % p == (f(x) + k * g(x)) % p);
    }
    assert(represents(p, h, d));
}

proof fn lemma_peval_zeros(n: nat, x: int)
    ensures
        peval(Seq::new(n, |i: int| 0int), x) == 0,
    decreases n,
{
    let z = Seq::new(n, |i: int| 0int);
    if n > 0 {
        assert(z.drop_first() =~= Seq::new((n - 1) as nat, |i: int| 0int));
        lemma_peval_zeros((n - 1) as nat, x);
        assert(x * 0 == 0);
    }
}

/// A polynomial times a line is a polynomial with one coefficient more.
pub proof fn lemma_poly_times_line(
    p: int,
    f: spec_fn(int) -> int,
    a: int,
    b: int,
    h: spec_fn(int) -> int,
    n: nat,
)
    requires
        p > 0,
        poly_of(p, f, n),
        forall|x: int| #[trigger] h(x) % p == (f(x) * line(p, a, b, x)) % p,
    ensures
        poly_of(p, h, n + 1),
{
    let c = choose|c: Seq<int>| #[trigger] represents(p, f, c) && c.len() == n;
    let zeros = Seq::new(n + 1, |i: int| 0int);
    let low = c.push(0);
    let high = seq![0int] + c;
    let d = padd(padd(zeros, a, low), b - a, high);
    assert forall|x: int| #[trigger] peval(d, x) % p == h(x) % p by {
        let v = peval(c, x);
        lemma_peval_zeros(n + 1, x);
        lemma_peval_push_zero(c, x);
        assert(high.drop_first() =~= c);
        assert(peval(high, x) == x * v);
        lemma_peval_add(zeros, a, low, x);
        lemma_peval_add(padd(zeros, a, low), b - a, high, x);
        let l = a + x * (b - a);
        assert(a * v + (b - a) * (x * v) == v * l) by (nonlinear_arith)
            requires
                l == a + x * (b - a),
        ;
        assert(peval(d, x) == v * l);
        assert(v % p == f(x) % p);
        lemma_residue(p, l);
        lemma_cong_mul(p, v, l, f(x), line(p, a, b, x));
        assert(h(x) % p == (f(x) * line(p, a, b, x)) % p);
    }
    assert(represents(p, h, d));
}

/// A line is a polynomial with two coefficients.
pub proof fn lemma_poly_line(p: int, a: int, b: int, h: spec_fn(int) -> int)
    requires
        p > 0,
        forall|x: int| #[trigger] h(x) % p == line(p, a, b, x) % p,
    ensures
        poly_of(p, h, 2),
{
    let one = |x: int| 1int;
    lemma_poly_constant(p, one, 1);
    assert forall|x: int| #[trigger] h(x) % p == (one(x) * line(p, a, b, x)) % p by {
        assert(1 * line(p, a, b, x) == line(p, a, b, x));
    }
    lemma_poly_times_line(p, one, a, b, h, 1);
}

} // verus!
