//! Prime fields, seen through their canonical integer representatives.

use vstd::arithmetic::div_mod::{
    lemma_add_mod_noop, lemma_fundamental_div_mod, lemma_mod_bound, lemma_mod_multiples_vanish,
    lemma_mod_twice, lemma_mul_mod_noop, lemma_small_mod, lemma_sub_mod_noop,
};
use vstd::prelude::*;

verus! {

/// `p` is a prime number.
pub open spec fn is_prime(p: int) -> bool {
    &&& p >= 2
    &&& forall|d: int| 2 <= d < p ==> #[trigger] (p % d) != 0
}

/// A prime field. An element is described by its representative `val` in `0..modulus()`.
pub trait PrimeField: Sized + Copy + Send + Sync {
    /// The characteristic of the field.
    spec fn modulus() -> int;

    /// The canonical representative of an element.
    spec fn val(&self) -> int;

    /// The modulus is a prime above five, so that six interpolation nodes are distinct.
    proof fn lemma_modulus()
        ensures
            is_prime(Self::modulus()),
            Self::modulus() > 5,
    ;

    /// Representatives are reduced.
    proof fn lemma_val(x: Self)
        ensures
            0 <= x.val() < Self::modulus(),
    ;

    fn zero() -> (r: Self)
        ensures
            r.val() == 0,
    ;

    fn one() -> (r: Self)
        ensures
            r.val() == 1,
    ;

    fn from_u64(x: u64) -> (r: Self)
        ensures
            r.val() == (x as int) % Self::modulus(),
    ;

    fn plus(self, other: Self) -> (r: Self)
        ensures
            r.val() == (self.val() + other.val()) % Self::modulus(),
    ;

    fn minus(self, other: Self) -> (r: Self)
        ensures
            r.val() == (self.val() - other.val()) % Self::modulus(),
    ;

    fn times(self, other: Self) -> (r: Self)
        ensures
            r.val() == (self.val() * other.val()) % Self::modulus(),
    ;

    /// The multiplicative inverse, which every element but zero has.
    fn invert(self) -> (r: Option<Self>)
        ensures
            self.val() == 0 ==> r is None,
            self.val() != 0 ==> r is Some && (self.val() * r->0.val()) % Self::modulus() == 1,
    ;

    /// The bytes by which a transcript takes in the element with a given representative.
    spec fn bytes(v: int) -> Seq<u8>;

    fn to_bytes(&self) -> (r: Vec<u8>)
        ensures
            r@ == Self::bytes(self.val()),
    ;

    fn same(self, other: Self) -> (r: bool)
        ensures
            r == (self.val() == other.val()),
    ;
}

/// Congruence is kept by sums.
pub proof fn lemma_cong_add(p: int, a: int, b: int, x: int, y: int)
    requires
        p > 0,
        a % p == x % p,
        b % p == y % p,
    ensures
        (a + b) % p == (x + y) % p,
{
    lemma_add_mod_noop(a, b, p);
    lemma_add_mod_noop(x, y, p);
}

/// Congruence is kept by differences.
pub proof fn lemma_cong_sub(p: int, a: int, b: int, x: int, y: int)
    requires
        p > 0,
        a % p == x % p,
        b % p == y % p,
    ensures
        (a - b) % p == (x - y) % p,
{
    lemma_sub_mod_noop(a, b, p);
    lemma_sub_mod_noop(x, y, p);
}

/// Congruence is kept by products.
pub proof fn lemma_cong_mul(p: int, a: int, b: int, x: int, y: int)
    requires
        p > 0,
        a % p == x % p,
        b % p == y % p,
    ensures
        (a * b) % p == (x * y) % p,
{
    lemma_mul_mod_noop(a, b, p);
    lemma_mul_mod_noop(x, y, p);
}

/// A reduced integer is its own residue.
pub proof fn lemma_reduced(p: int, a: int)
    requires
        0 <= a < p,
    ensures
        a % p == a,
{
    lemma_small_mod(a as nat, p as nat);
}

/// A residue is congruent to what it was taken of.
pub proof fn lemma_residue(p: int, a: int)
    requires
        p > 0,
    ensures
        (a % p) % p == a % p,
        0 <= a % p < p,
{
    lemma_mod_twice(a, p);
    lemma_mod_bound(a, p);
}

/// Multiples of the modulus vanish.
pub proof fn lemma_add_multiple(p: int, a: int, k: int)
    requires
        p > 0,
    ensures
        (a + k * p) % p == a % p,
{
    lemma_mod_multiples_vanish(k, a, p);
    assert(p * k + a == a + k * p) by (nonlinear_arith);
}

/// A difference that vanishes modulo `p` means congruence, and the other way round.
pub proof fn lemma_cong_diff(p: int, a: int, b: int)
    requires
        p > 0,
    ensures
        (a - b) % p == 0 <==> a % p == b % p,
{
    lemma_reduced(p, 0);
    if a % p == b % p {
        lemma_cong_sub(p, a, b, b, b);
    }
    if (a - b) % p == 0 {
        lemma_cong_add(p, a - b, b, 0, b);
    }
}

proof fn lemma_euclid_step(p: int, m: int, b: int)
    requires
        is_prime(p),
        0 < m < p,
        (m * b) % p == 0,
    ensures
        b % p == 0,
    decreases m,
{
    if m > 1 {
        let q = p / m;
        let r = p % m;
        lemma_fundamental_div_mod(p, m);
        lemma_mod_bound(p, m);
        assert(r != 0);
        // r * b is p * b less q times m * b.
        assert(r * b == b * p - q * (m * b)) by (nonlinear_arith)
            requires
                p == m * q + r,
        ;
        lemma_add_multiple(p, 0, b);
        lemma_cong_mul(p, q, m * b, q, 0);
        lemma_reduced(p, 0);
        lemma_cong_sub(p, b * p, q * (m * b), 0, q * 0);
        lemma_euclid_step(p, r, b);
    } else {
        assert(m * b == b) by (nonlinear_arith)
            requires
                m == 1,
        ;
    }
}

/// A prime field has no zero divisors.
pub proof fn lemma_no_zero_divisors(p: int, a: int, b: int)
    requires
        is_prime(p),
        (a * b) % p == 0,
    ensures
        a % p == 0 || b % p == 0,
{
    lemma_residue(p, a);
    if a % p != 0 {
        lemma_cong_mul(p, a % p, b, a, b);
        lemma_euclid_step(p, a % p, b);
    }
}

/// A factor that is not zero can be cancelled.
pub proof fn lemma_cancel(p: int, a: int, b: int, c: int)
    requires
        is_prime(p),
        (a * c) % p == (b * c) % p,
        c % p != 0,
    ensures
        a % p == b % p,
{
    lemma_cong_diff(p, a * c, b * c);
    assert(a * c - b * c == (a - b) * c) by (nonlinear_arith);
    lemma_no_zero_divisors(p, a - b, c);
    lemma_cong_diff(p, a, b);
}

proof fn lemma_inverse_step(p: int, m: int) -> (y: int)
    requires
        is_prime(p),
        0 < m < p,
    ensures
        (m * y) % p == 1,
    decreases m,
{
    lemma_reduced(p, 1);
    if m > 1 {
        let q = p / m;
        let r = p % m;
        lemma_fundamental_div_mod(p, m);
        lemma_mod_bound(p, m);
        assert(r != 0);
        let z = lemma_inverse_step(p, r);
        let y = -(q * z);
        // m * y is r * z less z times p.
        assert(m * y == r * z + (-z) * p) by (nonlinear_arith)
            requires
                p == m * q + r,
                y == -(q * z),
        ;
        lemma_add_multiple(p, r * z, -z);
        y
    } else {
        assert(m * 1 == 1);
        1
    }
}

/// What is not zero has an inverse.
pub proof fn lemma_inverse_exists(p: int, a: int) -> (y: int)
    requires
        is_prime(p),
        a % p != 0,
    ensures
        0 <= y < p,
        (a * y) % p == 1,
{
    lemma_residue(p, a);
    let z = lemma_inverse_step(p, a % p);
    lemma_residue(p, z);
    lemma_cong_mul(p, a, z % p, a % p, z);
    z % p
}

} // verus!
