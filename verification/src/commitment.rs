//! Pedersen commitments to vectors of scalars.

use crate::engine::{Engine, Group};
use crate::field::{
    lemma_cancel, lemma_cong_add, lemma_cong_diff, lemma_cong_mul, lemma_cong_sub, lemma_reduced,
    lemma_residue, PrimeField,
};
use crate::poly::vals;
use crate::sums::{lemma_sum_one_differs, lemma_sum_same, sum};
use vstd::prelude::*;

verus! {

/// The logarithms of a sequence of group elements.
pub open spec fn logs<E: Engine>(s: Seq<E::GE>) -> Seq<int> {
    Seq::new(s.len(), |i: int| s[i].log())
}

/// The sum of `v[i] * g[i]`.
pub open spec fn msm(v: Seq<int>, g: Seq<int>) -> int
    decreases v.len(),
{
    if v.len() == 0 {
        0
    } else {
        msm(v.drop_last(), g) + v.last() * g[v.len() - 1]
    }
}

/// The generators that vectors are committed with.
pub struct CommitmentKey<E: Engine> {
    /// One generator for each position of a vector.
    pub ck: Vec<E::GE>,
    /// The generator for the blinding.
    pub h: E::GE,
}

/// The part of a commitment key that takes a blinding away.
pub struct DerandKey<E: Engine> {
    /// The generator for the blinding.
    pub h: E::GE,
}

/// Two keys hold the same generators.
pub open spec fn same_key<E: Engine>(a: CommitmentKey<E>, b: CommitmentKey<E>) -> bool {
    a.ck@ == b.ck@ && a.h == b.h
}

impl<E: Engine> CommitmentKey<E> {
    /// The logarithm of the commitment to `v` under the blinding `r`.
    pub open spec fn commitment(self, v: Seq<int>, r: int) -> int {
        (msm(v, logs::<E>(self.ck@)) + r * self.h.log()) % E::Scalar::modulus()
    }

    /// The commitment to `v` under the blinding `r`: the sum of `v[i] * ck[i]`, plus `r * h`.
    pub fn commit(&self, v: &[E::Scalar], r: &E::Scalar) -> (c: E::GE)
        requires
            v@.len() <= self.ck@.len(),
        ensures
            c.log() == self.commitment(vals(v@), r.val()),
    {
        let ghost p = E::Scalar::modulus();
        let ghost g = logs::<E>(self.ck@);
        let n: usize = v.len();
        let mut acc = E::GE::identity();
        let mut i: usize = 0;
        proof {
            E::Scalar::lemma_modulus();
            lemma_reduced(p, 0);
            assert(vals(v@).take(0) =~= Seq::<int>::empty());
        }
        while i < n
            invariant
                i <= n,
                n == v@.len(),
                n <= self.ck@.len(),
                p == E::Scalar::modulus(),
                p > 0,
                g == logs::<E>(self.ck@),
                acc.log() == msm(vals(v@).take(i as int), g) % p,
            decreases n - i,
        {
            let ghost before = acc.log();
            acc = acc.plus(self.ck[i].scale(v[i]));
            proof {
                let t = vals(v@).take(i as int + 1);
                assert(t.drop_last() =~= vals(v@).take(i as int));
                let s = msm(vals(v@).take(i as int), g);
                let x = v@[i as int].val() * g[i as int];
                lemma_residue(p, s);
                lemma_residue(p, x);
                lemma_cong_add(p, before, x % p, s, x);
            }
            i = i + 1;
        }
        proof {
            assert(vals(v@).take(n as int) =~= vals(v@));
            let s = msm(vals(v@), g);
            let x = r.val() * self.h.log();
            lemma_residue(p, s);
            lemma_residue(p, x);
            lemma_cong_add(p, s % p, x % p, s, x);
        }
        acc.plus(self.h.scale(*r))
    }

    /// A copy of the key.
    pub fn duplicate(&self) -> (r: Self)
        ensures
            same_key(r, *self),
    {
        CommitmentKey { ck: copy_points::<E>(&self.ck), h: self.h }
    }

    /// The part of the key that takes a blinding away.
    pub fn derand_key(&self) -> (r: DerandKey<E>)
        ensures
            r.h == self.h,
    {
        DerandKey { h: self.h }
    }
}

impl<E: Engine> DerandKey<E> {
    /// The commitment without the blinding `r`.
    pub fn derandomize(&self, comm: &E::GE, r: &E::Scalar) -> (c: E::GE)
        ensures
            c.log() == (comm.log() - r.val() * self.h.log()) % E::Scalar::modulus(),
    {
        let minus = E::Scalar::zero().minus(*r);
        proof {
            let p = E::Scalar::modulus();
            E::Scalar::lemma_modulus();
            let h = self.h.log();
            lemma_residue(p, 0 - r.val());
            lemma_cong_mul(p, minus.val(), h, 0 - r.val(), h);
            lemma_residue(p, minus.val() * h);
            lemma_cong_add(p, comm.log(), (minus.val() * h) % p, comm.log(), (0 - r.val()) * h);
            assert(comm.log() + (0 - r.val()) * h == comm.log() - r.val() * h) by (nonlinear_arith);
        }
        comm.plus(self.h.scale(minus))
    }
}

/// A copy of a vector of group elements.
pub fn copy_points<E: Engine>(v: &Vec<E::GE>) -> (r: Vec<E::GE>)
    ensures
        r@ == v@,
{
    let n: usize = v.len();
    let mut r: Vec<E::GE> = Vec::new();
    let mut i: usize = 0;
    while i < n
        invariant
            i <= n,
            n == v@.len(),
            r@ == v@.take(i as int),
        decreases n - i,
    {
        r.push(v[i]);
        assert(r@ =~= v@.take(i as int + 1));
        i = i + 1;
    }
    assert(r@ =~= v@);
    r
}

/// A copy of a slice of scalars.
pub fn copy_scalars<F: PrimeField>(v: &[F]) -> (r: Vec<F>)
    ensures
        r@ == v@,
{
    let n: usize = v.len();
    let mut r: Vec<F> = Vec::new();
    let mut i: usize = 0;
    while i < n
        invariant
            i <= n,
            n == v@.len(),
            r@ == v@.take(i as int),
        decreases n - i,
    {
        r.push(v[i]);
        assert(r@ =~= v@.take(i as int + 1));
        i = i + 1;
    }
    assert(r@ =~= v@);
    r
}

/// Sums over the same generators add up position by position.
pub proof fn lemma_msm_linear(a: Seq<int>, k: int, b: Seq<int>, g: Seq<int>)
    requires
        a.len() == b.len(),
        a.len() <= g.len(),
    ensures
        msm(Seq::new(a.len(), |i: int| a[i] + k * b[i]), g) == msm(a, g) + k * msm(b, g),
    decreases a.len(),
{
    let s = Seq::new(a.len(), |i: int| a[i] + k * b[i]);
    if a.len() > 0 {
        let t = Seq::new((a.len() - 1) as nat, |i: int| a.drop_last()[i] + k * b.drop_last()[i]);
        assert(s.drop_last() =~= t);
        lemma_msm_linear(a.drop_last(), k, b.drop_last(), g);
        let n = a.len() - 1;
        let u = msm(a.drop_last(), g);
        let v = msm(b.drop_last(), g);
        assert((u + k * v) + (a[n] + k * b[n]) * g[n] == (u + a[n] * g[n]) + k * (v + b[n] * g[n]))
            by (nonlinear_arith);
    } else {
        assert(k * 0 == 0) by (nonlinear_arith);
    }
}

/// A vector cut in two is committed to as its head on the first generators and its tail on the
/// generators behind them.
pub proof fn lemma_msm_split(a: Seq<int>, b: Seq<int>, g: Seq<int>)
    requires
        a.len() + b.len() <= g.len(),
    ensures
        msm(a + b, g) == msm(a, g) + msm(b, g.skip(a.len() as int)),
    decreases b.len(),
{
    if b.len() > 0 {
        assert((a + b).drop_last() =~= a + b.drop_last());
        lemma_msm_split(a, b.drop_last(), g);
    } else {
        assert(a + b =~= a);
    }
}

/// Zeros add nothing.
pub proof fn lemma_msm_zeros(n: nat, g: Seq<int>)
    requires
        n <= g.len(),
    ensures
        msm(Seq::new(n, |i: int| 0int), g) == 0,
    decreases n,
{
    let z = Seq::new(n, |i: int| 0int);
    if n > 0 {
        assert(z.drop_last() =~= Seq::new((n - 1) as nat, |i: int| 0int));
        lemma_msm_zeros((n - 1) as nat, g);
        assert(0 * g[n - 1] == 0);
    }
}

/// Congruent entries give congruent sums.
pub proof fn lemma_msm_cong(p: int, a: Seq<int>, b: Seq<int>, g: Seq<int>)
    requires
        p > 0,
        a.len() == b.len(),
        forall|i: int| 0 <= i < a.len() ==> #[trigger] a[i] % p == b[i] % p,
    ensures
        msm(a, g) % p == msm(b, g) % p,
    decreases a.len(),
{
    if a.len() > 0 {
        let n = a.len() - 1;
        assert forall|i: int| 0 <= i < n implies #[trigger] a.drop_last()[i] % p
            == b.drop_last()[i] % p by {
            assert(a[i] % p == b[i] % p);
        }
        lemma_msm_cong(p, a.drop_last(), b.drop_last(), g);
        assert(a[n] % p == b[n] % p);
        lemma_cong_mul(p, a[n], g[n], b[n], g[n]);
        lemma_cong_add(p, msm(a.drop_last(), g), a[n] * g[n], msm(b.drop_last(), g), b[n] * g[n]);
    }
}

proof fn lemma_msm_sum(v: Seq<int>, g: Seq<int>)
    ensures
        msm(v, g) == sum(v.len(), |k: int| v[k] * g[k]),
    decreases v.len(),
{
    if v.len() > 0 {
        let t = v.drop_last();
        lemma_msm_sum(t, g);
        lemma_sum_same(t.len(), |k: int| v[k] * g[k], |k: int| t[k] * g[k]);
    }
}

/// A commitment is the sum, over every entry of the vector, of the entry times its generator, plus
/// the blinding times the generator for it.
pub proof fn law_commitment_sum<E: Engine>(ck: CommitmentKey<E>, v: Seq<int>, r: int)
    requires
        v.len() <= ck.ck@.len(),
    ensures
        ck.commitment(v, r) == (sum(v.len(), |k: int| v[k] * ck.ck@[k].log()) + r * ck.h.log())
            % E::Scalar::modulus(),
{
    let g = logs::<E>(ck.ck@);
    lemma_msm_sum(v, g);
    lemma_sum_same(v.len(), |k: int| v[k] * ck.ck@[k].log(), |k: int| v[k] * g[k]);
}

/// Every entry counts: vectors that differ in exactly one entry, in front of a generator that is
/// not the neutral element, have different commitments under the same blinding.
pub proof fn law_commitment_tells_apart<E: Engine>(
    ck: CommitmentKey<E>,
    v: Seq<int>,
    w: Seq<int>,
    r: int,
    i: int,
)
    requires
        v.len() == w.len(),
        v.len() <= ck.ck@.len(),
        0 <= i < v.len(),
        ck.ck@[i].log() % E::Scalar::modulus() != 0,
        forall|k: int|
            0 <= k < v.len() ==> (((#[trigger] v[k]) % E::Scalar::modulus() != w[k]
                % E::Scalar::modulus()) <==> k == i),
    ensures
        ck.commitment(v, r) != ck.commitment(w, r),
{
    let p = E::Scalar::modulus();
    E::Scalar::lemma_modulus();
    let f = |k: int| v[k] * ck.ck@[k].log();
    let g = |k: int| w[k] * ck.ck@[k].log();
    let b = r * ck.h.log();
    law_commitment_sum(ck, v, r);
    law_commitment_sum(ck, w, r);
    assert forall|k: int| 0 <= k < v.len() && k != i implies #[trigger] f(k) % p == g(k) % p by {
        assert(v[k] % p == w[k] % p);
        lemma_cong_mul(p, v[k], ck.ck@[k].log(), w[k], ck.ck@[k].log());
    }
    if ck.commitment(v, r) == ck.commitment(w, r) {
        lemma_cong_sub(p, sum(v.len(), f) + b, b, sum(v.len(), g) + b, b);
        lemma_cong_diff(p, sum(v.len(), f), sum(v.len(), g));
        lemma_sum_one_differs(p, v.len(), f, g, i);
        lemma_cong_diff(p, f(i), g(i));
        lemma_cancel(p, v[i], w[i], ck.ck@[i].log());
        assert(v[i] % p != w[i] % p);
    }
}

/// The blinding counts: where its generator is not the neutral element, commitments to one vector
/// under different blindings differ.
pub proof fn law_blinding_tells_apart<E: Engine>(ck: CommitmentKey<E>, v: Seq<int>, r: int, s: int)
    requires
        v.len() <= ck.ck@.len(),
        ck.h.log() % E::Scalar::modulus() != 0,
        r % E::Scalar::modulus() != s % E::Scalar::modulus(),
    ensures
        ck.commitment(v, r) != ck.commitment(v, s),
{
    let p = E::Scalar::modulus();
    E::Scalar::lemma_modulus();
    let m = msm(v, logs::<E>(ck.ck@));
    let h = ck.h.log();
    if ck.commitment(v, r) == ck.commitment(v, s) {
        lemma_cong_sub(p, m + r * h, m, m + s * h, m);
        lemma_cancel(p, r, s, h);
    }
}

} // verus!
