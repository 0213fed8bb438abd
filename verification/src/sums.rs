//! Sums of integers.

use crate::field::{lemma_cong_add, lemma_cong_diff};
use vstd::prelude::*;

verus! {

/// The sum of `f(0)`, `f(1)` and so on up to `f(n - 1)`.
pub open spec fn sum(n: nat, f: spec_fn(int) -> int) -> int
    decreases n,
{
    if n == 0 {
        0
    } else {
        sum((n - 1) as nat, f) + f(n - 1)
    }
}

/// Sums of the same terms are the same.
pub proof fn lemma_sum_same(n: nat, f: spec_fn(int) -> int, g: spec_fn(int) -> int)
    requires
        forall|i: int| 0 <= i < n ==> #[trigger] f(i) == g(i),
    ensures
        sum(n, f) == sum(n, g),
    decreases n,
{
    if n > 0 {
        lemma_sum_same((n - 1) as nat, f, g);
        assert(f(n - 1) == g(n - 1));
    }
}

/// Sums of congruent terms are congruent.
pub proof fn lemma_sum_cong(p: int, n: nat, f: spec_fn(int) -> int, g: spec_fn(int) -> int)
    requires
        p > 0,
        forall|i: int| 0 <= i < n ==> #[trigger] f(i) % p == g(i) % p,
    ensures
        sum(n, f) % p == sum(n, g) % p,
    decreases n,
{
    if n > 0 {
        lemma_sum_cong(p, (n - 1) as nat, f, g);
        assert(f(n - 1) % p == g(n - 1) % p);
        lemma_cong_add(
            p,
            sum((n - 1) as nat, f),
            f(n - 1),
            sum((n - 1) as nat, g),
            g(n - 1),
        );
    }
}

/// Sums that are congruent in all terms but one differ, modulo `p`, as that term does.
pub proof fn lemma_sum_one_differs(
    p: int,
    n: nat,
    f: spec_fn(int) -> int,
    g: spec_fn(int) -> int,
    k: int,
)
    requires
        p > 0,
        0 <= k < n,
        forall|i: int| 0 <= i < n && i != k ==> #[trigger] f(i) % p == g(i) % p,
    ensures
        (sum(n, f) - sum(n, g)) % p == (f(k) - g(k)) % p,
    decreases n,
{
    let m = (n - 1) as nat;
    if k == m {
        lemma_sum_cong(p, m, f, g);
        lemma_cong_diff(p, sum(m, f), sum(m, g));
        lemma_cong_add(p, sum(m, f) - sum(m, g), f(k) - g(k), 0, f(k) - g(k));
    } else {
        lemma_sum_one_differs(p, m, f, g, k);
        assert(f(m as int) % p == g(m as int) % p);
        lemma_cong_diff(p, f(m as int), g(m as int));
        lemma_cong_add(
            p,
            sum(m, f) - sum(m, g),
            f(m as int) - g(m as int),
            f(k) - g(k),
            0,
        );
    }
    crate::field::lemma_reduced(p, 0);
}

/// A sum whose terms from `m` on are all congruent to one number.
pub proof fn lemma_sum_constant_tail(p: int, m: nat, n: nat, f: spec_fn(int) -> int, c: int)
    requires
        p > 0,
        m <= n,
        forall|i: int| m <= i < n ==> #[trigger] f(i) % p == c % p,
    ensures
        sum(n, f) % p == (sum(m, f) + (n - m) * c) % p,
    decreases n,
{
    if m == n {
        assert((n - m) * c == 0) by (nonlinear_arith)
            requires
                m == n,
        ;
    } else {
        let k = (n - 1) as nat;
        lemma_sum_constant_tail(p, m, k, f, c);
        assert(f(k as int) % p == c % p);
        lemma_cong_add(p, sum(k, f), f(k as int), sum(m, f) + (k - m) * c, c);
        assert((k - m) * c + c == (n - m) * c) by (nonlinear_arith)
            requires
                k == n - 1,
        ;
    }
}

/// A sum of multiples is the multiple of the sum.
pub proof fn lemma_sum_scale(n: nat, f: spec_fn(int) -> int, g: spec_fn(int) -> int, x: int)
    requires
        forall|i: int| 0 <= i < n ==> #[trigger] f(i) == g(i) * x,
    ensures
        sum(n, f) == sum(n, g) * x,
    decreases n,
{
    if n == 0 {
        assert(0 * x == 0);
    } else {
        let m = (n - 1) as nat;
        lemma_sum_scale(m, f, g, x);
        assert(f(m as int) == g(m as int) * x);
        assert((sum(m, g) + g(m as int)) * x == sum(m, g) * x + g(m as int) * x)
            by (nonlinear_arith);
    }
}

} // verus!
