//! The field of order `2^31 - 1`.

use crate::field::{
    is_prime, lemma_add_multiple, lemma_cong_mul, lemma_cong_sub, lemma_reduced, lemma_residue,
    PrimeField,
};
use vstd::arithmetic::div_mod::{lemma_fundamental_div_mod, lemma_mod_bound};
use vstd::prelude::*;

verus! {

/// The order of the field, a Mersenne prime.
pub const ORDER: u32 = 2147483647;

/// An element of the field of order `2^31 - 1`.
#[derive(Clone, Copy, Debug, PartialEq, Eq)]
pub struct M31 {
    v: u32,
}

/// No number up to the square root of the order divides it.
#[verifier::rlimit(100)]
#[verifier::spinoff_prover]
proof fn lemma_no_small_divisor(d: u32, q: u32)
    requires
        2 <= d <= 46340,
    ensures
        d as int * q as int != 2147483647,
{
    assert((d as u64) * (q as u64) != 2147483647) by (bit_vector)
        requires
            2 <= d <= 46340,
    ;
}

/// The order of the field is a prime number.
pub proof fn lemma_order_is_prime()
    ensures
        is_prime(ORDER as int),
{
    let p = ORDER as int;
    assert forall|d: int| 2 <= d < p implies #[trigger] (p % d) != 0 by {
        if p % d == 0 {
            let q = p / d;
            lemma_fundamental_div_mod(p, d);
            assert(p == d * q);
            assert(1 < q < p) by (nonlinear_arith)
                requires
                    p == d * q,
                    2 <= d < p,
            ;
            if d <= 46340 {
                lemma_no_small_divisor(d as u32, q as u32);
            } else {
                assert(q <= 46340) by (nonlinear_arith)
                    requires
                        d * q == 2147483647,
                        d > 46340,
                ;
                assert(q * d == d * q) by (nonlinear_arith);
                lemma_no_small_divisor(q as u32, d as u32);
            }
        }
    }
}

impl M31 {
    /// The representative of the element in `0..ORDER`.
    pub fn to_u32(&self) -> (r: u32)
        ensures
            r as int == self.val(),
    {
        self.v % ORDER
    }

    /// The element with the representative `x` modulo the order.
    pub fn new(x: u32) -> (r: M31)
        ensures
            r.val() == (x as int) % (ORDER as int),
    {
        proof {
            lemma_residue(ORDER as int, x as int);
        }
        M31 { v: x % ORDER }
    }
}

impl M31 {
    /// The characteristic of the field is its order.
    pub proof fn lemma_characteristic()
        ensures
            M31::modulus() == ORDER,
    {
    }
}

impl PrimeField for M31 {
    closed spec fn modulus() -> int {
        ORDER as int
    }

    closed spec fn val(&self) -> int {
        (self.v as int) % (ORDER as int)
    }

    proof fn lemma_modulus() {
        lemma_order_is_prime();
    }

    proof fn lemma_val(x: Self) {
        lemma_mod_bound(x.v as int, ORDER as int);
    }

    fn zero() -> (r: Self) {
        M31 { v: 0 }
    }

    fn one() -> (r: Self) {
        M31 { v: 1 }
    }

    fn from_u64(x: u64) -> (r: Self) {
        proof {
            lemma_residue(ORDER as int, x as int);
        }
        M31 { v: (x % (ORDER as u64)) as u32 }
    }

    fn plus(self, other: Self) -> (r: Self) {
        let s: u64 = (self.to_u32() as u64) + (other.to_u32() as u64);
        Self::from_u64(s)
    }

    fn minus(self, other: Self) -> (r: Self) {
        proof {
            M31::lemma_val(self);
            M31::lemma_val(other);
            lemma_add_multiple(ORDER as int, self.val() - other.val(), 1);
        }
        let s: u64 = (self.to_u32() as u64) + (ORDER as u64) - (other.to_u32() as u64);
        Self::from_u64(s)
    }

    fn times(self, other: Self) -> (r: Self) {
        proof {
            M31::lemma_val(self);
            M31::lemma_val(other);
            assert(0 <= self.val() * other.val() <= 0x7fff_ffff * 0x7fff_ffff) by (nonlinear_arith)
                requires
                    0 <= self.val() <= 0x7fff_ffff,
                    0 <= other.val() <= 0x7fff_ffff,
            ;
        }
        let a: u64 = self.to_u32() as u64;
        let b: u64 = other.to_u32() as u64;
        Self::from_u64(a * b)
    }

    fn invert(self) -> (r: Option<Self>) {
        let a: u32 = self.to_u32();
        if a == 0 {
            return None;
        }
        let ghost p = ORDER as int;
        proof {
            M31::lemma_val(self);
            lemma_order_is_prime();
            lemma_reduced(p, a as int);
        }
        // s times the element is congruent to m, and m falls until it is one.
        let mut m: u32 = a;
        let mut s: M31 = M31::one();
        proof {
            assert(self.val() * 1 == self.val());
        }
        while m != 1
            invariant
                p == ORDER as int,
                is_prime(p),
                p == M31::modulus(),
                0 < m < ORDER,
                (self.val() * s.val()) % p == m as int,
            decreases m,
        {
            let q: u32 = ORDER / m;
            let t: u32 = ORDER % m;
            proof {
                lemma_fundamental_div_mod(p, m as int);
                lemma_mod_bound(p, m as int);
                assert(p % (m as int) != 0);
            }
            let next: M31 = M31::zero().minus(M31::new(q).times(s));
            proof {
                let x = self.val();
                let qq = q as int;
                let mm = m as int;
                lemma_reduced(p, mm);
                lemma_residue(p, qq);
                lemma_residue(p, qq * s.val());
                lemma_cong_mul(p, (qq % p), s.val(), qq, s.val());
                lemma_residue(p, (qq % p) * s.val());
                lemma_cong_sub(p, 0, ((qq % p) * s.val()) % p, 0, qq * s.val());
                lemma_residue(p, 0 - qq * s.val());
                lemma_cong_mul(p, x, next.val(), x, 0 - qq * s.val());
                assert(x * (0 - qq * s.val()) == 0 - qq * (x * s.val())) by (nonlinear_arith);
                lemma_cong_mul(p, qq, x * s.val(), qq, mm);
                lemma_cong_sub(p, 0, qq * (x * s.val()), 0, qq * mm);
                assert(0 - qq * mm == t as int + (-1) * p) by (nonlinear_arith)
                    requires
                        p == mm * qq + t as int,
                ;
                lemma_add_multiple(p, t as int, -1);
                lemma_reduced(p, t as int);
            }
            s = next;
            m = t;
        }
        Some(s)
    }

    /// Four bytes, the lowest first.
    open spec fn bytes(v: int) -> Seq<u8> {
        seq![
            (v % 256) as u8,
            ((v / 256) % 256) as u8,
            ((v / 65536) % 256) as u8,
            ((v / 16777216) % 256) as u8,
        ]
    }

    fn to_bytes(&self) -> (r: Vec<u8>) {
        let x: u32 = self.to_u32();
        let mut r: Vec<u8> = Vec::new();
        r.push((x % 256) as u8);
        r.push(((x / 256) % 256) as u8);
        r.push(((x / 65536) % 256) as u8);
        r.push(((x / 16777216) % 256) as u8);
        assert(r@ =~= Self::bytes(self.val()));
        r
    }

    fn same(self, other: Self) -> (r: bool) {
        self.to_u32() == other.to_u32()
    }
}

/// The bytes of an element are four, and different elements have different bytes.
pub proof fn law_bytes_tell_apart(a: M31, b: M31)
    requires
        M31::bytes(a.val()) == M31::bytes(b.val()),
    ensures
        M31::bytes(a.val()).len() == 4,
        a.val() == b.val(),
{
    M31::lemma_val(a);
    M31::lemma_val(b);
    M31::lemma_characteristic();
    let (x, y) = (a.val(), b.val());
    let (u, v) = (M31::bytes(x), M31::bytes(y));
    assert(u[0] == v[0] && u[1] == v[1] && u[2] == v[2] && u[3] == v[3]);
    assert(u[0] == x % 256 && u[1] == (x / 256) % 256 && u[2] == (x / 65536) % 256 && u[3] == (x
        / 16777216) % 256);
    assert(v[0] == y % 256 && v[1] == (y / 256) % 256 && v[2] == (y / 65536) % 256 && v[3] == (y
        / 16777216) % 256);
}

} // verus!
