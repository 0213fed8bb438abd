//! Points, vectors and commitments on the line through two others.

use crate::circuit::relation::line;
use crate::commitment::{lemma_msm_cong, lemma_msm_linear, logs, msm, CommitmentKey};
use crate::engine::{Engine, Group};
use crate::field::{lemma_cong_add, lemma_cong_mul, lemma_cong_sub, lemma_residue, PrimeField};
use crate::poly::vals;
use crate::side::{between, line_at};
use crate::structure::{mat_fits, mat_row, mat_vec};
use vstd::prelude::*;

verus! {

/// The group element on the line through two others.
pub fn point_between<E: Engine>(a: E::GE, b: E::GE, x: E::Scalar) -> (r: E::GE)
    ensures
        r.log() == line(E::Scalar::modulus(), a.log(), b.log(), x.val()),
{
    let minus_one = E::Scalar::zero().minus(E::Scalar::one());
    let minus_a = a.scale(minus_one);
    let d = b.plus(minus_a);
    let xd = d.scale(x);
    proof {
        let p = E::Scalar::modulus();
        E::Scalar::lemma_modulus();
        lemma_residue(p, 0 - 1);
        lemma_cong_mul(p, minus_one.val(), a.log(), 0 - 1, a.log());
        lemma_residue(p, minus_one.val() * a.log());
        lemma_cong_add(p, b.log(), minus_a.log(), b.log(), (0 - 1) * a.log());
        lemma_residue(p, b.log() + minus_a.log());
        let dd = b.log() - a.log();
        assert(b.log() + (0 - 1) * a.log() == dd);
        lemma_cong_mul(p, x.val(), d.log(), x.val(), dd);
        lemma_residue(p, x.val() * d.log());
        lemma_cong_add(p, a.log(), xd.log(), a.log(), x.val() * dd);
    }
    a.plus(xd)
}

/// The vector on the line through two others.
pub fn scalars_between<F: PrimeField>(a: &Vec<F>, b: &Vec<F>, x: F) -> (r: Vec<F>)
    requires
        a@.len() == b@.len(),
    ensures
        r@.len() == a@.len(),
        vals(r@) == between(F::modulus(), vals(a@), vals(b@), x.val()),
{
    let n: usize = a.len();
    let mut r: Vec<F> = Vec::new();
    let mut i: usize = 0;
    while i < n
        invariant
            i <= n,
            n == a@.len(),
            n == b@.len(),
            r@.len() == i,
            forall|k: int|
                0 <= k < i ==> (#[trigger] r@[k]).val() == line(
                    F::modulus(),
                    a@[k].val(),
                    b@[k].val(),
                    x.val(),
                ),
        decreases n - i,
    {
        r.push(line_at(a[i], b[i], x));
        i = i + 1;
    }
    proof {
        assert(vals(r@) =~= between(F::modulus(), vals(a@), vals(b@), x.val()));
    }
    r
}

/// Commitments are linear: the commitment to a vector on a line is on the line through the
/// commitments.
pub proof fn law_commitment_between<E: Engine>(
    ck: CommitmentKey<E>,
    a: Seq<int>,
    ra: int,
    b: Seq<int>,
    rb: int,
    x: int,
)
    requires
        a.len() == b.len(),
        a.len() <= ck.ck@.len(),
    ensures
        ck.commitment(
            between(E::Scalar::modulus(), a, b, x),
            line(E::Scalar::modulus(), ra, rb, x),
        ) == line(E::Scalar::modulus(), ck.commitment(a, ra), ck.commitment(b, rb), x),
{
    let p = E::Scalar::modulus();
    E::Scalar::lemma_modulus();
    let g = logs::<E>(ck.ck@);
    let h = ck.h.log();
    let d = Seq::new(b.len(), |i: int| b[i] + (-1int) * a[i]);
    lemma_msm_linear(b, -1, a, g);
    let s = Seq::new(a.len(), |i: int| a[i] + x * d[i]);
    lemma_msm_linear(a, x, d, g);
    let v = between(p, a, b, x);
    assert forall|i: int| 0 <= i < v.len() implies #[trigger] v[i] % p == s[i] % p by {
        lemma_residue(p, a[i] + x * (b[i] - a[i]));
        assert(b[i] + (-1int) * a[i] == b[i] - a[i]);
    }
    lemma_msm_cong(p, v, s, g);
    let ma = msm(a, g);
    let mb = msm(b, g);
    let rl = ra + x * (rb - ra);
    lemma_residue(p, rl);
    lemma_cong_mul(p, rl % p, h, rl, h);
    lemma_cong_add(p, msm(v, g), (rl % p) * h, ma + x * (mb - ma), rl * h);
    let ca = ma + ra * h;
    let cb = mb + rb * h;
    assert(ma + x * (mb - ma) + rl * h == ca + x * (cb - ca)) by (nonlinear_arith)
        requires
            rl == ra + x * (rb - ra),
            ca == ma + ra * h,
            cb == mb + rb * h,
    ;
    lemma_line_cong(p, ca, cb, x);
}

/// A line may be taken through reduced values.
pub proof fn lemma_line_cong(p: int, a: int, b: int, x: int)
    requires
        p > 0,
    ensures
        line(p, a % p, b % p, x) == line(p, a, b, x),
{
    lemma_residue(p, a);
    lemma_residue(p, b);
    lemma_cong_sub(p, b % p, a % p, b, a);
    lemma_cong_mul(p, x, b % p - a % p, x, b - a);
    lemma_cong_add(p, a % p, x * (b % p - a % p), a, x * (b - a));
}

/// The product of a row with a vector on a line is on the line through the products.
proof fn lemma_mat_row_between<F: PrimeField>(
    m: Seq<(usize, usize, F)>,
    a: Seq<int>,
    b: Seq<int>,
    x: int,
    i: int,
    rows: nat,
)
    requires
        a.len() == b.len(),
        mat_fits(m, rows, a.len()),
    ensures
        mat_row(m, between(F::modulus(), a, b, x), i) % F::modulus() == (mat_row(m, a, i) + x * (
        mat_row(m, b, i) - mat_row(m, a, i))) % F::modulus(),
    decreases m.len(),
{
    let p = F::modulus();
    F::lemma_modulus();
    let z = between(p, a, b, x);
    if m.len() == 0 {
        assert(x * (0 - 0) == 0) by (nonlinear_arith);
    } else {
        let t = m.drop_last();
        assert forall|k: int| 0 <= k < t.len() implies (#[trigger] t[k]).0 < rows && t[k].1
            < a.len() by {
            assert(t[k] == m[k]);
        }
        lemma_mat_row_between(t, a, b, x, i, rows);
        if m.last().0 == i {
            let j = m.last().1 as int;
            let v = m.last().2.val();
            assert(m[m.len() - 1].1 < a.len());
            let l = a[j] + x * (b[j] - a[j]);
            lemma_residue(p, l);
            lemma_cong_mul(p, v, z[j], v, l);
            let sa = mat_row(t, a, i);
            let sb = mat_row(t, b, i);
            lemma_cong_add(p, mat_row(t, z, i), v * z[j], sa + x * (sb - sa), v * l);
            assert(sa + x * (sb - sa) + v * l == (sa + v * a[j]) + x * ((sb + v * b[j]) - (sa + v
                * a[j]))) by (nonlinear_arith)
                requires
                    l == a[j] + x * (b[j] - a[j]),
            ;
        }
    }
}

/// The product of a matrix with a vector on a line is on the line through the products.
pub proof fn lemma_mat_vec_between<F: PrimeField>(
    m: Seq<(usize, usize, F)>,
    rows: nat,
    a: Seq<int>,
    b: Seq<int>,
    x: int,
)
    requires
        a.len() == b.len(),
        mat_fits(m, rows, a.len()),
    ensures
        mat_vec(m, rows, between(F::modulus(), a, b, x)) == between(
            F::modulus(),
            mat_vec(m, rows, a),
            mat_vec(m, rows, b),
            x,
        ),
{
    let p = F::modulus();
    F::lemma_modulus();
    let l = mat_vec(m, rows, between(p, a, b, x));
    let r = between(p, mat_vec(m, rows, a), mat_vec(m, rows, b), x);
    assert forall|i: int| 0 <= i < rows implies l[i] == r[i] by {
        lemma_mat_row_between(m, a, b, x, i, rows);
        lemma_line_cong(p, mat_row(m, a, i), mat_row(m, b, i), x);
    }
    assert(l =~= r);
}

} // verus!
