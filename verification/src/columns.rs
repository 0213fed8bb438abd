//! Tables with several columns, and the columns of a lookup combined into one.

use crate::commitment::{
    copy_scalars, lemma_msm_cong, lemma_msm_linear, logs, msm, CommitmentKey,
};
use crate::compressed_snark::closing::vecs;
use crate::engine::{Engine, Group};
use crate::field::{
    is_prime, lemma_cancel, lemma_cong_add, lemma_cong_diff, lemma_cong_mul, lemma_residue,
    PrimeField,
};
use crate::poly::vals;
use crate::powers::{law_power, lemma_power_nonzero, power, power_of};
use crate::sums::{lemma_sum_cong, lemma_sum_one_differs, lemma_sum_same, sum};
use vstd::arithmetic::power::pow;
use vstd::prelude::*;

verus! {

/// A table by its number, its size and the commitment to its address column.
pub struct LookupTableHandle<E: Engine> {
    pub table_id: u64,
    pub size: usize,
    pub commitment: E::GE,
}

/// A table with value columns beside the address column.
pub struct MultiColumnLookupTable<E: Engine> {
    pub table_id: u64,
    pub size: usize,
    pub columns: Vec<Vec<E::Scalar>>,
    pub value_commitments: Vec<E::GE>,
}

/// The tables that the steps look up in.
pub struct LookupShape<E: Engine> {
    pub tables: Vec<LookupTableHandle<E>>,
    pub multi_column_tables: Vec<MultiColumnLookupTable<E>>,
    pub num_addr_columns: usize,
    pub num_witness_columns: usize,
    pub witness_ell_cached: usize,
}

/// The address column plus the value columns times the powers of a challenge.
pub open spec fn combined(p: int, addr: Seq<int>, cols: Seq<Seq<int>>, gamma: int) -> Seq<int>
    decreases cols.len(),
{
    if cols.len() == 0 {
        addr
    } else {
        let c = combined(p, addr, cols.drop_last(), gamma);
        Seq::new(addr.len(), |i: int| (c[i] + power(p, gamma, cols.len()) * cols.last()[i]) % p)
    }
}

/// Every column has the given length.
pub open spec fn columns_fit(cols: Seq<Seq<int>>, n: nat) -> bool {
    forall|c: int| 0 <= c < cols.len() ==> (#[trigger] cols[c]).len() == n
}

/// A sum of group elements with the powers of a challenge.
pub open spec fn combined_point(p: int, comm: int, values: Seq<int>, gamma: int) -> int
    decreases values.len(),
{
    if values.len() == 0 {
        comm
    } else {
        (combined_point(p, comm, values.drop_last(), gamma) + power(p, gamma, values.len())
            * values.last()) % p
    }
}

/// The columns combined.
pub fn combine_columns<F: PrimeField>(addr: &Vec<F>, cols: &Vec<Vec<F>>, gamma: F) -> (r: Vec<F>)
    requires
        columns_fit(vecs(cols@), addr@.len()),
    ensures
        vals(r@) == combined(F::modulus(), vals(addr@), vecs(cols@), gamma.val()),
        r@.len() == addr@.len(),
{
    let ghost p = F::modulus();
    let ghost all = vecs(cols@);
    let n: usize = addr.len();
    let k: usize = cols.len();
    let mut r = copy_scalars(addr);
    let mut c: usize = 0;
    assert(all.take(0) =~= Seq::<Seq<int>>::empty());
    assert(vals(r@) == combined(p, vals(addr@), all.take(0), gamma.val()));
    while c < k
        invariant
            c <= k,
            k == cols@.len(),
            n == addr@.len(),
            r@.len() == n,
            p == F::modulus(),
            all == vecs(cols@),
            columns_fit(all, addr@.len()),
            vals(r@) == combined(p, vals(addr@), all.take(c as int), gamma.val()),
        decreases k - c,
    {
        let g = power_of(gamma, c + 1);
        let col = &cols[c];
        let ghost before = vals(r@);
        let ghost next = all.take(c as int + 1);
        proof {
            assert(all[c as int].len() == n);
            assert(next.drop_last() =~= all.take(c as int));
            assert(next.last() == vals(col@));
        }
        let mut out: Vec<F> = Vec::new();
        let mut i: usize = 0;
        while i < n
            invariant
                i <= n,
                n == r@.len(),
                n == col@.len(),
                p == F::modulus(),
                before == vals(r@),
                g.val() == power(p, gamma.val(), (c + 1) as nat),
                out@.len() == i,
                forall|j: int|
                    0 <= j < i ==> (#[trigger] out@[j]).val() == (before[j] + g.val()
                        * col@[j].val()) % p,
            decreases n - i,
        {
            let t = g.times(col[i]);
            let s = r[i].plus(t);
            proof {
                F::lemma_modulus();
                let x = g.val() * col@[i as int].val();
                lemma_residue(p, x);
                lemma_cong_add(p, before[i as int], x % p, before[i as int], x);
            }
            out.push(s);
            i = i + 1;
        }
        proof {
            assert(vals(out@) =~= combined(p, vals(addr@), next, gamma.val()));
        }
        r = out;
        c = c + 1;
    }
    assert(all.take(k as int) =~= all);
    r
}

/// Group elements combined.
pub fn combine_points<E: Engine>(comm: E::GE, values: &Vec<E::GE>, gamma: E::Scalar) -> (r: E::GE)
    ensures
        r.log() == combined_point(
            E::Scalar::modulus(),
            comm.log(),
            logs::<E>(values@),
            gamma.val(),
        ),
{
    let ghost p = E::Scalar::modulus();
    let ghost all = logs::<E>(values@);
    let k: usize = values.len();
    let mut r = comm;
    let mut c: usize = 0;
    assert(all.take(0) =~= Seq::<int>::empty());
    while c < k
        invariant
            c <= k,
            k == values@.len(),
            p == E::Scalar::modulus(),
            all == logs::<E>(values@),
            r.log() == combined_point(p, comm.log(), all.take(c as int), gamma.val()),
        decreases k - c,
    {
        let g = power_of(gamma, c + 1);
        let ghost before = r.log();
        let t = values[c].scale(g);
        r = r.plus(t);
        proof {
            E::Scalar::lemma_modulus();
            let next = all.take(c as int + 1);
            assert(next.drop_last() =~= all.take(c as int));
            assert(next.last() == values@[c as int].log());
            let x = g.val() * values@[c as int].log();
            lemma_residue(p, x);
            lemma_cong_add(p, before, x % p, before, x);
        }
        c = c + 1;
    }
    assert(all.take(k as int) =~= all);
    r
}

/// The commitment to combined columns is the combination of the commitments.
pub proof fn law_combined_commitment<E: Engine>(
    ck: CommitmentKey<E>,
    addr: Seq<int>,
    cols: Seq<Seq<int>>,
    gamma: int,
)
    requires
        columns_fit(cols, addr.len()),
        addr.len() <= ck.ck@.len(),
    ensures
        ck.commitment(combined(E::Scalar::modulus(), addr, cols, gamma), 0) == combined_point(
            E::Scalar::modulus(),
            ck.commitment(addr, 0),
            Seq::new(cols.len(), |c: int| ck.commitment(cols[c], 0)),
            gamma,
        ),
        combined(E::Scalar::modulus(), addr, cols, gamma).len() == addr.len(),
    decreases cols.len(),
{
    let p = E::Scalar::modulus();
    E::Scalar::lemma_modulus();
    let comms = Seq::new(cols.len(), |c: int| ck.commitment(cols[c], 0));
    if cols.len() > 0 {
        let t = cols.drop_last();
        assert forall|c: int| 0 <= c < t.len() implies (#[trigger] t[c]).len() == addr.len() by {
            assert(cols[c] == t[c]);
        }
        law_combined_commitment(ck, addr, t, gamma);
        assert(comms.drop_last() =~= Seq::new(t.len(), |c: int| ck.commitment(t[c], 0)));
        let g = logs::<E>(ck.ck@);
        let h = ck.h.log();
        let a = combined(p, addr, t, gamma);
        let last = cols.last();
        assert(cols[cols.len() - 1].len() == addr.len());
        let k = power(p, gamma, cols.len());
        let s = Seq::new(a.len(), |i: int| a[i] + k * last[i]);
        let v = combined(p, addr, cols, gamma);
        assert forall|i: int| 0 <= i < v.len() implies #[trigger] v[i] % p == s[i] % p by {
            lemma_residue(p, a[i] + k * last[i]);
        }
        lemma_msm_cong(p, v, s, g);
        lemma_msm_linear(a, k, last, g);
        let ma = msm(a, g);
        let ml = msm(last, g);
        assert(0 * h == 0);
        lemma_residue(p, ma);
        lemma_residue(p, ml);
        lemma_cong_mul(p, k, ml % p, k, ml);
        lemma_cong_add(p, ma % p, k * (ml % p), ma, k * ml);
    }
}

/// The address column of a table.
pub open spec fn addresses(p: int, n: nat) -> Seq<int> {
    Seq::new(n, |i: int| i % p)
}

/// The address column of a table.
pub fn address_column<F: PrimeField>(n: usize) -> (r: Vec<F>)
    ensures
        r@.len() == n,
        vals(r@) == addresses(F::modulus(), n as nat),
{
    let mut r: Vec<F> = Vec::new();
    let mut i: usize = 0;
    while i < n
        invariant
            i <= n,
            r@.len() == i,
            forall|j: int| 0 <= j < i ==> (#[trigger] r@[j]).val() == j % F::modulus(),
        decreases n - i,
    {
        r.push(F::from_u64(i as u64));
        i = i + 1;
    }
    proof {
        assert(vals(r@) =~= addresses(F::modulus(), n as nat));
    }
    r
}

/// Whether every column has the given length.
pub fn have_length<F: PrimeField>(cols: &Vec<Vec<F>>, n: usize) -> (r: bool)
    ensures
        r == columns_fit(vecs(cols@), n as nat),
{
    let k: usize = cols.len();
    let mut c: usize = 0;
    while c < k
        invariant
            c <= k,
            k == cols@.len(),
            forall|i: int| 0 <= i < c ==> (#[trigger] vecs(cols@)[i]).len() == n,
        decreases k - c,
    {
        if cols[c].len() != n {
            assert(vecs(cols@)[c as int].len() != n);
            return false;
        }
        c = c + 1;
    }
    true
}

/// An entry of the combined columns is the entry of the address column plus, over all value
/// columns, the entry times the power of the challenge whose exponent is the column's place, the
/// first column's being one.
pub proof fn law_combined_sum(p: int, addr: Seq<int>, cols: Seq<Seq<int>>, gamma: int, i: int)
    requires
        p > 1,
        0 <= i < addr.len(),
    ensures
        combined(p, addr, cols, gamma).len() == addr.len(),
        combined(p, addr, cols, gamma)[i] % p == (addr[i] + sum(
            cols.len(),
            |c: int| pow(gamma, (c + 1) as nat) * cols[c][i],
        )) % p,
    decreases cols.len(),
{
    if cols.len() > 0 {
        let m = cols.drop_last();
        let f = |c: int| pow(gamma, (c + 1) as nat) * cols[c][i];
        let g = |c: int| pow(gamma, (c + 1) as nat) * m[c][i];
        law_combined_sum(p, addr, m, gamma, i);
        lemma_sum_same(m.len(), f, g);
        law_power(p, gamma, cols.len());
        lemma_residue(p, pow(gamma, cols.len()));
        let k = power(p, gamma, cols.len());
        let x = cols.last()[i];
        lemma_cong_mul(p, k, x, pow(gamma, cols.len()), x);
        let before = combined(p, addr, m, gamma)[i];
        lemma_cong_add(p, before, k * x, addr[i] + sum(m.len(), f), f(cols.len() - 1));
        lemma_residue(p, before + k * x);
    }
}

/// Where the challenge is not zero, rows that differ in exactly one column, the address column or
/// any of the value columns, are told apart by their combined entries.
pub proof fn law_combined_tells_apart(
    p: int,
    addr: Seq<int>,
    cols: Seq<Seq<int>>,
    i: int,
    addr2: Seq<int>,
    cols2: Seq<Seq<int>>,
    j: int,
    gamma: int,
    column: int,
)
    requires
        is_prime(p),
        gamma % p != 0,
        0 <= i < addr.len(),
        0 <= j < addr2.len(),
        cols.len() == cols2.len(),
        -1 <= column < cols.len(),
        (addr[i] % p != addr2[j] % p) <==> column == -1,
        forall|c: int|
            0 <= c < cols.len() ==> (((#[trigger] cols[c])[i] % p != cols2[c][j] % p) <==> c
                == column),
    ensures
        combined(p, addr, cols, gamma)[i] % p != combined(p, addr2, cols2, gamma)[j] % p,
{
    let n = cols.len();
    let f = |c: int| pow(gamma, (c + 1) as nat) * cols[c][i];
    let g = |c: int| pow(gamma, (c + 1) as nat) * cols2[c][j];
    law_combined_sum(p, addr, cols, gamma, i);
    law_combined_sum(p, addr2, cols2, gamma, j);
    assert forall|c: int| 0 <= c < n && c != column implies #[trigger] f(c) % p == g(c) % p by {
        let k = pow(gamma, (c + 1) as nat);
        assert(cols[c][i] % p == cols2[c][j] % p);
        lemma_cong_mul(p, k, cols[c][i], k, cols2[c][j]);
    }
    let a = addr[i] + sum(n, f);
    let b = addr2[j] + sum(n, g);
    if a % p == b % p {
        lemma_cong_diff(p, a, b);
        if column == -1 {
            lemma_sum_cong(p, n, f, g);
            crate::field::lemma_cong_sub(p, a, sum(n, f), b, sum(n, g));
        } else {
            let k = pow(gamma, (column + 1) as nat);
            let (x, y) = (cols[column][i], cols2[column][j]);
            lemma_sum_one_differs(p, n, f, g, column);
            lemma_cong_diff(p, addr[i], addr2[j]);
            crate::field::lemma_cong_sub(p, a - b, addr[i] - addr2[j], 0, 0);
            crate::field::lemma_reduced(p, 0);
            assert((sum(n, f) - sum(n, g)) % p == 0);
            lemma_cong_diff(p, f(column), g(column));
            assert(k * x == x * k && k * y == y * k) by (nonlinear_arith);
            lemma_power_nonzero(p, gamma, (column + 1) as nat);
            lemma_cancel(p, x, y, k);
            assert(cols[column][i] % p != cols2[column][j] % p);
        }
    }
}

/// The combined commitment is the commitment to the address column plus, over all value columns,
/// its commitment times the power of the challenge that the column itself is taken with.
pub proof fn law_combined_point_sum(p: int, comm: int, values: Seq<int>, gamma: int)
    requires
        p > 1,
    ensures
        combined_point(p, comm, values, gamma) % p == (comm + sum(
            values.len(),
            |c: int| pow(gamma, (c + 1) as nat) * values[c],
        )) % p,
    decreases values.len(),
{
    if values.len() > 0 {
        let m = values.drop_last();
        let f = |c: int| pow(gamma, (c + 1) as nat) * values[c];
        let g = |c: int| pow(gamma, (c + 1) as nat) * m[c];
        law_combined_point_sum(p, comm, m, gamma);
        lemma_sum_same(m.len(), f, g);
        law_power(p, gamma, values.len());
        lemma_residue(p, pow(gamma, values.len()));
        let k = power(p, gamma, values.len());
        let x = values.last();
        lemma_cong_mul(p, k, x, pow(gamma, values.len()), x);
        let before = combined_point(p, comm, m, gamma);
        lemma_cong_add(p, before, k * x, comm + sum(m.len(), f), f(values.len() - 1));
        lemma_residue(p, before + k * x);
    }
}

/// Where the challenge is not zero, commitments that differ in exactly one column, the address
/// column or any of the value columns, are told apart by their combination.
pub proof fn law_combined_point_tells_apart(
    p: int,
    comm: int,
    values: Seq<int>,
    comm2: int,
    values2: Seq<int>,
    gamma: int,
    column: int,
)
    requires
        is_prime(p),
        gamma % p != 0,
        values.len() == values2.len(),
        -1 <= column < values.len(),
        (comm % p != comm2 % p) <==> column == -1,
        forall|c: int|
            0 <= c < values.len() ==> (((#[trigger] values[c]) % p != values2[c] % p) <==> c
                == column),
    ensures
        combined_point(p, comm, values, gamma) % p != combined_point(p, comm2, values2, gamma) % p,
{
    let n = values.len();
    let cols = Seq::new(n, |c: int| seq![values[c]]);
    let cols2 = Seq::new(n, |c: int| seq![values2[c]]);
    law_combined_tells_apart(p, seq![comm], cols, 0, seq![comm2], cols2, 0, gamma, column);
    law_combined_sum(p, seq![comm], cols, gamma, 0);
    law_combined_sum(p, seq![comm2], cols2, gamma, 0);
    law_combined_point_sum(p, comm, values, gamma);
    law_combined_point_sum(p, comm2, values2, gamma);
    lemma_sum_same(
        n,
        |c: int| pow(gamma, (c + 1) as nat) * values[c],
        |c: int| pow(gamma, (c + 1) as nat) * cols[c][0],
    );
    lemma_sum_same(
        n,
        |c: int| pow(gamma, (c + 1) as nat) * values2[c],
        |c: int| pow(gamma, (c + 1) as nat) * cols2[c][0],
    );
}

} // verus!
