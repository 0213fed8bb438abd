//! Powers of a scalar.

use crate::field::{
    is_prime, lemma_cong_mul, lemma_no_zero_divisors, lemma_reduced, lemma_residue, PrimeField,
};
use crate::poly::vals;
use vstd::arithmetic::power::pow;
use vstd::prelude::*;

verus! {

/// The power `x^n` modulo `p`.
pub open spec fn power(p: int, x: int, n: nat) -> int
    decreases n,
{
    if n == 0 {
        1
    } else {
        (power(p, x, (n - 1) as nat) * x) % p
    }
}

/// The powers of `x` from `x^0` up to `x^(n - 1)`.
pub open spec fn powers(p: int, x: int, n: nat) -> Seq<int> {
    Seq::new(n, |i: int| power(p, x, i as nat))
}

/// The power is the residue of the integer power.
pub proof fn law_power(p: int, x: int, n: nat)
    requires
        p > 1,
    ensures
        power(p, x, n) == pow(x, n) % p,
    decreases n,
{
    reveal(pow);
    if n == 0 {
        lemma_reduced(p, 1);
    } else {
        let m = (n - 1) as nat;
        law_power(p, x, m);
        lemma_residue(p, pow(x, m));
        lemma_cong_mul(p, power(p, x, m), x, pow(x, m), x);
        assert(pow(x, m) * x == x * pow(x, m)) by (nonlinear_arith);
    }
}

/// A power of what is not zero modulo a prime is not zero modulo it.
pub proof fn lemma_power_nonzero(p: int, x: int, n: nat)
    requires
        is_prime(p),
        x % p != 0,
    ensures
        pow(x, n) % p != 0,
    decreases n,
{
    reveal(pow);
    if n == 0 {
        lemma_reduced(p, 1);
    } else {
        let m = (n - 1) as nat;
        lemma_power_nonzero(p, x, m);
        if pow(x, n) % p == 0 {
            lemma_no_zero_divisors(p, x, pow(x, m));
        }
    }
}

/// The powers of a scalar.
pub fn powers_of<F: PrimeField>(x: F, n: usize) -> (r: Vec<F>)
    ensures
        r@.len() == n,
        vals(r@) == powers(F::modulus(), x.val(), n as nat),
{
    let ghost p = F::modulus();
    let mut r: Vec<F> = Vec::new();
    let mut next = F::one();
    let mut i: usize = 0;
    while i < n
        invariant
            i <= n,
            p == F::modulus(),
            r@.len() == i,
            next.val() == power(p, x.val(), i as nat),
            forall|k: int| 0 <= k < i ==> (#[trigger] r@[k]).val() == power(p, x.val(), k as nat),
        decreases n - i,
    {
        r.push(next);
        next = next.times(x);
        i = i + 1;
    }
    proof {
        assert(vals(r@) =~= powers(p, x.val(), n as nat));
    }
    r
}

/// The power of a scalar.
pub fn power_of<F: PrimeField>(x: F, n: usize) -> (r: F)
    ensures
        r.val() == power(F::modulus(), x.val(), n as nat),
{
    let mut r = F::one();
    let mut i: usize = 0;
    while i < n
        invariant
            i <= n,
            r.val() == power(F::modulus(), x.val(), i as nat),
        decreases n - i,
    {
        r = r.times(x);
        i = i + 1;
    }
    r
}

} // verus!
