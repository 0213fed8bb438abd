//! Rank-one constraint systems as matrices, and the relation that folded instances are in.

use crate::commitment::{copy_scalars, CommitmentKey};
use crate::engine::{Engine, Group};
use crate::errors::NovaError;
use crate::field::{
    lemma_cong_add, lemma_cong_diff, lemma_cong_mul, lemma_cong_sub, lemma_reduced, lemma_residue,
    PrimeField,
};
use crate::poly::vals;
use crate::relation::{zeros, FoldedInstance, R1CSInstance};
use crate::side::{
    law_side_claim_sum, lemma_between_ends, side_claim, side_shape, Side, SideVal,
};
use crate::sums::{lemma_sum_cong, lemma_sum_same, sum};
use vstd::arithmetic::power2::{lemma2_to64, lemma_pow2_unfold, pow2};
use vstd::prelude::*;
use vstd::slice::slice_subrange;

verus! {

/// The product of row `i` of a matrix with a vector. The matrix is a list of entries: a row, a
/// column and a value.
pub open spec fn mat_row<F: PrimeField>(
    m: Seq<(usize, usize, F)>,
    z: Seq<int>,
    i: int,
) -> int
    decreases m.len(),
{
    if m.len() == 0 {
        0
    } else {
        mat_row(m.drop_last(), z, i) + if m.last().0 == i {
            m.last().2.val() * z[m.last().1 as int]
        } else {
            0
        }
    }
}

/// The product of a matrix with a vector.
pub open spec fn mat_vec<F: PrimeField>(
    m: Seq<(usize, usize, F)>,
    rows: nat,
    z: Seq<int>,
) -> Seq<int> {
    Seq::new(rows, |i: int| mat_row(m, z, i) % F::modulus())
}

/// Every entry of a matrix lies in the given bounds.
pub open spec fn mat_fits<F: PrimeField>(
    m: Seq<(usize, usize, F)>,
    rows: nat,
    columns: nat,
) -> bool {
    forall|k: int| 0 <= k < m.len() ==> (#[trigger] m[k]).0 < rows && m[k].1 < columns
}

/// The product of a matrix with a vector.
pub fn multiply<F: PrimeField>(m: &Vec<(usize, usize, F)>, rows: usize, z: &Vec<F>) -> (r: Vec<F>)
    requires
        mat_fits(m@, rows as nat, z@.len()),
    ensures
        vals(r@) == mat_vec(m@, rows as nat, vals(z@)),
{
    let ghost p = F::modulus();
    let ghost zi = vals(z@);
    let mut r = zeros::<F>(rows);
    let n: usize = m.len();
    let mut k: usize = 0;
    proof {
        F::lemma_modulus();
        lemma_reduced(p, 0);
        assert forall|i: int| 0 <= i < rows implies (#[trigger] r@[i]).val() == mat_row(
            m@.take(0),
            zi,
            i,
        ) % p by {
            assert(vals(r@)[i] == 0);
        }
    }
    while k < n
        invariant
            k <= n,
            n == m@.len(),
            p == F::modulus(),
            p > 0,
            zi == vals(z@),
            mat_fits(m@, rows as nat, z@.len()),
            r@.len() == rows,
            forall|i: int|
                0 <= i < rows ==> (#[trigger] r@[i]).val() == mat_row(m@.take(k as int), zi, i) % p,
        decreases n - k,
    {
        let (i, j, v) = m[k];
        proof {
            assert(m@[k as int].0 < rows);
        }
        let ghost r0 = r@;
        let term = v.times(z[j]);
        let sum = r[i].plus(term);
        r.set(i, sum);
        proof {
            let t = m@.take(k as int + 1);
            assert(t.drop_last() =~= m@.take(k as int));
            assert forall|a: int| 0 <= a < rows implies (#[trigger] r@[a]).val() == mat_row(
                t,
                zi,
                a,
            ) % p by {
                let s = mat_row(m@.take(k as int), zi, a);
                assert(r0[a].val() == s % p);
                if a == i {
                    let x = v.val() * zi[j as int];
                    lemma_residue(p, s);
                    lemma_residue(p, x);
                    lemma_cong_add(p, s % p, x % p, s, x);
                }
            }
        }
        k = k + 1;
    }
    proof {
        assert(m@.take(n as int) =~= m@);
        assert(vals(r@) =~= mat_vec(m@, rows as nat, zi));
    }
    r
}

/// The matrices of a rank-one constraint system. The columns are the private values, the constant
/// and the public values.
pub struct R1CSShape<E: Engine> {
    pub num_cons: usize,
    pub num_vars: usize,
    pub num_io: usize,
    pub A: Vec<(usize, usize, E::Scalar)>,
    pub B: Vec<(usize, usize, E::Scalar)>,
    pub C: Vec<(usize, usize, E::Scalar)>,
}

fn fits<F: PrimeField>(m: &Vec<(usize, usize, F)>, rows: usize, columns: usize) -> (r: bool)
    ensures
        r == mat_fits(m@, rows as nat, columns as nat),
{
    let n: usize = m.len();
    let mut k: usize = 0;
    while k < n
        invariant
            k <= n,
            n == m@.len(),
            forall|a: int| 0 <= a < k ==> (#[trigger] m@[a]).0 < rows && m@[a].1 < columns,
        decreases n - k,
    {
        if m[k].0 >= rows || m[k].1 >= columns {
            return false;
        }
        k = k + 1;
    }
    true
}

/// A copy of a matrix.
fn copy_matrix<F: PrimeField>(m: &Vec<(usize, usize, F)>) -> (r: Vec<(usize, usize, F)>)
    ensures
        r@ == m@,
{
    let n: usize = m.len();
    let mut r: Vec<(usize, usize, F)> = Vec::new();
    let mut k: usize = 0;
    while k < n
        invariant
            k <= n,
            n == m@.len(),
            r@ == m@.take(k as int),
        decreases n - k,
    {
        r.push(m[k]);
        assert(m@.take(k as int + 1) =~= m@.take(k as int).push(m@[k as int]));
        k = k + 1;
    }
    assert(m@.take(n as int) =~= m@);
    r
}

impl<E: Engine> R1CSShape<E> {
    /// The number of columns.
    pub open spec fn columns(self) -> nat {
        (self.num_vars + 1 + self.num_io) as nat
    }

    /// The matrices have the dimensions that they are given with.
    pub open spec fn wf(self) -> bool {
        &&& self.columns() <= usize::MAX
        &&& mat_fits(self.A@, self.num_cons as nat, self.columns())
        &&& mat_fits(self.B@, self.num_cons as nat, self.columns())
        &&& mat_fits(self.C@, self.num_cons as nat, self.columns())
    }

    /// The vector meets every constraint.
    pub open spec fn holds(self, z: Seq<int>) -> bool {
        let p = E::Scalar::modulus();
        forall|i: int|
            0 <= i < self.num_cons ==> ((#[trigger] mat_row(self.A@, z, i)) * mat_row(
                self.B@,
                z,
                i,
            )) % p == mat_row(self.C@, z, i) % p
    }

    /// The matrices of the given dimensions; an error where an entry lies outside.
    pub fn new(
        num_cons: usize,
        num_vars: usize,
        num_io: usize,
        A: Vec<(usize, usize, E::Scalar)>,
        B: Vec<(usize, usize, E::Scalar)>,
        C: Vec<(usize, usize, E::Scalar)>,
    ) -> (r: Result<Self, NovaError>)
        requires
            num_vars + 1 + num_io <= usize::MAX,
        ensures
            r is Ok <==> (R1CSShape::<E> { num_cons, num_vars, num_io, A, B, C }).wf(),
            r is Ok ==> r->Ok_0 == (R1CSShape::<E> { num_cons, num_vars, num_io, A, B, C }),
            r is Err ==> r == Err::<Self, NovaError>(NovaError::InvalidIndex),
    {
        let columns: usize = num_vars + 1 + num_io;
        if !fits(&A, num_cons, columns) || !fits(&B, num_cons, columns) || !fits(
            &C,
            num_cons,
            columns,
        ) {
            return Err(NovaError::InvalidIndex);
        }
        Ok(R1CSShape { num_cons, num_vars, num_io, A, B, C })
    }

    /// The matrices with more rows, all of them zero.
    pub fn padded(&self, num_cons: usize) -> (r: Self)
        requires
            self.wf(),
            num_cons >= self.num_cons,
        ensures
            r.wf(),
            r.num_cons == num_cons,
            r.num_vars == self.num_vars,
            r.num_io == self.num_io,
            r.A@ == self.A@,
            r.B@ == self.B@,
            r.C@ == self.C@,
    {
        R1CSShape {
            num_cons,
            num_vars: self.num_vars,
            num_io: self.num_io,
            A: copy_matrix(&self.A),
            B: copy_matrix(&self.B),
            C: copy_matrix(&self.C),
        }
    }
}

/// The vector that the matrices of a system are applied to.
pub open spec fn full_vector(w: Seq<int>, u: int, x: Seq<int>) -> Seq<int> {
    w.push(u) + x
}

/// The vector that the matrices of a system are applied to.
pub fn full_vector_of<F: PrimeField>(w: &Vec<F>, u: F, x: &Vec<F>) -> (z: Vec<F>)
    ensures
        vals(z@) == full_vector(vals(w@), u.val(), vals(x@)),
        z@.len() == w@.len() + 1 + x@.len(),
{
    let mut z: Vec<F> = Vec::new();
    let n: usize = w.len();
    let mut i: usize = 0;
    while i < n
        invariant
            i <= n,
            n == w@.len(),
            z@ == w@.take(i as int),
        decreases n - i,
    {
        z.push(w[i]);
        assert(w@.take(i as int + 1) =~= w@.take(i as int).push(w@[i as int]));
        i = i + 1;
    }
    assert(w@.take(n as int) =~= w@);
    z.push(u);
    let m: usize = x.len();
    let ghost head = z@;
    i = 0;
    assert(z@ =~= head + x@.take(0));
    while i < m
        invariant
            i <= m,
            m == x@.len(),
            z@ == head + x@.take(i as int),
        decreases m - i,
    {
        z.push(x[i]);
        assert(z@ =~= head + x@.take(i as int + 1));
        i = i + 1;
    }
    assert(x@.take(m as int) =~= x@);
    proof {
        assert(vals(z@) =~= full_vector(vals(w@), u.val(), vals(x@)));
    }
    z
}

/// The matrices of a step circuit, and the grid that its constraints are laid out on.
pub struct Structure<E: Engine> {
    pub S: R1CSShape<E>,
    pub left: usize,
    pub right: usize,
}

/// A witness of a folded instance: the private values, the weights of the grid, and the
/// blindings of their commitments.
pub struct FoldedWitness<E: Engine> {
    pub W: Vec<E::Scalar>,
    pub r_W: E::Scalar,
    pub E: Vec<E::Scalar>,
    pub r_E: E::Scalar,
}

/// A witness of an instance of the step circuit.
pub struct R1CSWitness<E: Engine> {
    pub W: Vec<E::Scalar>,
    pub r_W: E::Scalar,
}

/// The products of the three matrices on the grid of weights.
pub open spec fn grid<E: Engine>(
    S: R1CSShape<E>,
    e1: Seq<int>,
    e2: Seq<int>,
    z: Seq<int>,
) -> SideVal {
    SideVal {
        eq_left: e1,
        eq_right: e2,
        inv: mat_vec(S.A@, S.num_cons as nat, z),
        base: mat_vec(S.B@, S.num_cons as nat, z),
        num: mat_vec(S.C@, S.num_cons as nat, z),
    }
}

/// The weighted sum of what the constraints lack.
pub open spec fn grid_claim<E: Engine>(
    S: R1CSShape<E>,
    e1: Seq<int>,
    e2: Seq<int>,
    z: Seq<int>,
) -> int {
    side_claim(grid(S, e1, e2, z), 0) % E::Scalar::modulus()
}

/// Two structures hold the same matrices and dimensions.
pub open spec fn same_structure<E: Engine>(a: Structure<E>, b: Structure<E>) -> bool {
    &&& a.left == b.left
    &&& a.right == b.right
    &&& a.S.num_cons == b.S.num_cons
    &&& a.S.num_vars == b.S.num_vars
    &&& a.S.num_io == b.S.num_io
    &&& a.S.A@ == b.S.A@
    &&& a.S.B@ == b.S.B@
    &&& a.S.C@ == b.S.C@
}

impl<E: Engine> Structure<E> {
    /// A copy of the structure.
    pub fn duplicate(&self) -> (r: Self)
        requires
            self.wf(),
        ensures
            same_structure(r, *self),
            r.wf(),
    {
        Structure { S: self.S.padded(self.S.num_cons), left: self.left, right: self.right }
    }

    /// The matrices are well formed and have as many rows as the grid has cells.
    pub open spec fn wf(self) -> bool {
        &&& self.S.wf()
        &&& self.S.num_cons == self.left * self.right
        &&& self.left + self.right <= usize::MAX
    }

    /// Lays the constraints out on the smallest grid of powers of two that has room for them and
    /// is square, or twice as wide as high.
    pub fn new(S: &R1CSShape<E>) -> (r: Self)
        requires
            S.wf(),
            S.num_cons <= usize::MAX / 4,
        ensures
            r.wf(),
            r.S.num_vars == S.num_vars,
            r.S.num_io == S.num_io,
            r.S.A@ == S.A@,
            r.S.B@ == S.B@,
            r.S.C@ == S.C@,
            r.S.num_cons >= S.num_cons,
            exists|ell: nat|
                {
                    &&& r.S.num_cons == #[trigger] pow2(ell)
                    &&& r.left == pow2((ell + 1) / 2)
                    &&& r.right == pow2(ell / 2)
                    &&& ell == 0 || pow2((ell - 1) as nat) < S.num_cons
                },
    {
        let n: usize = S.num_cons;
        let mut left: usize = 1;
        let mut right: usize = 1;
        let mut total: usize = 1;
        let ghost mut ell: nat = 0;
        proof {
            lemma2_to64();
        }
        while total < n
            invariant
                n <= usize::MAX / 4,
                total == pow2(ell),
                left == pow2((ell + 1) / 2),
                right == pow2(ell / 2),
                left == right || left == 2 * right,
                left * right == total,
                total <= usize::MAX / 2,
                left >= 1,
                right >= 1,
                left <= total,
                ell == 0 || pow2((ell - 1) as nat) < n,
            decreases 2 * n - total,
        {
            proof {
                lemma_pow2_unfold(ell + 1);
                let e = ell as int;
                if e % 2 == 0 {
                    assert((e + 1) / 2 == e / 2);
                    assert((e + 2) / 2 == e / 2 + 1);
                    lemma_pow2_unfold((e / 2 + 1) as nat);
                } else {
                    assert((e + 1) / 2 == e / 2 + 1);
                    assert((e + 2) / 2 == e / 2 + 1);
                    lemma_pow2_unfold((e / 2 + 1) as nat);
                }
                assert((2 * left) * right == 2 * (left * right) && left * (2 * right) == 2 * (left
                    * right)) by (nonlinear_arith);
            }
            if left == right {
                proof {
                    assert(ell % 2 == 0) by {
                        if ell % 2 == 1 {
                            assert(left == 2 * right);
                        }
                    }
                }
                left = 2 * left;
            } else {
                proof {
                    assert(ell % 2 == 1) by {
                        if ell % 2 == 0 {
                            assert(left == right);
                        }
                    }
                }
                right = 2 * right;
            }
            total = 2 * total;
            proof {
                ell = ell + 1;
                assert(left <= left * right) by (nonlinear_arith)
                    requires
                        left >= 1,
                        right >= 1,
                ;
            }
        }
        proof {
            assert(right <= left * right) by (nonlinear_arith)
                requires
                    left >= 1,
                    right >= 1,
            ;
        }
        Structure { S: S.padded(total), left, right }
    }
}

/// The first `k` scalars of a vector, and the rest.
pub fn split_scalars<F: PrimeField>(v: &Vec<F>, k: usize) -> (r: (Vec<F>, Vec<F>))
    requires
        k <= v@.len(),
    ensures
        r.0@ == v@.take(k as int),
        r.1@ == v@.skip(k as int),
        vals(r.0@) == vals(v@).take(k as int),
        vals(r.1@) == vals(v@).skip(k as int),
{
    let n: usize = v.len();
    let a = copy_scalars(slice_subrange(v.as_slice(), 0, k));
    let b = copy_scalars(slice_subrange(v.as_slice(), k, n));
    proof {
        assert(a@ =~= v@.take(k as int));
        assert(b@ =~= v@.skip(k as int));
        assert(vals(a@) =~= vals(v@).take(k as int));
        assert(vals(b@) =~= vals(v@).skip(k as int));
    }
    (a, b)
}

impl<E: Engine> Structure<E> {
    /// The witness belongs to the folded instance: its weighted sum is the claim of the instance,
    /// and the commitments of the instance open to it.
    pub open spec fn satisfied_by(
        self,
        ck: CommitmentKey<E>,
        U: FoldedInstance<E>,
        W: FoldedWitness<E>,
    ) -> bool {
        let e = vals(W.E@);
        &&& W.W@.len() == self.S.num_vars
        &&& U.X@.len() == self.S.num_io
        &&& W.E@.len() == self.left + self.right
        &&& W.W@.len() <= ck.ck@.len()
        &&& W.E@.len() <= ck.ck@.len()
        &&& U.T.val() == grid_claim(
            self.S,
            e.take(self.left as int),
            e.skip(self.left as int),
            full_vector(vals(W.W@), U.u.val(), vals(U.X@)),
        )
        &&& U.comm_W.log() == ck.commitment(vals(W.W@), W.r_W.val())
        &&& U.comm_E.log() == ck.commitment(e, W.r_E.val())
    }

    /// The weighted sum of what the constraints lack.
    pub fn claim(&self, E1: &Vec<E::Scalar>, E2: &Vec<E::Scalar>, z: &Vec<E::Scalar>) -> (r:
        E::Scalar)
        requires
            self.wf(),
            E1@.len() == self.left,
            E2@.len() == self.right,
            z@.len() == self.S.columns(),
        ensures
            r.val() == grid_claim(self.S, vals(E1@), vals(E2@), vals(z@)),
    {
        let ghost p = E::Scalar::modulus();
        let n: usize = self.S.num_cons;
        let az = multiply(&self.S.A, n, z);
        let bz = multiply(&self.S.B, n, z);
        let cz = multiply(&self.S.C, n, z);
        let side = Side {
            eq_left_1: E1,
            eq_left_2: E1,
            eq_right_1: E2,
            eq_right_2: E2,
            inv_1: &az,
            inv_2: &az,
            base_1: &bz,
            base_2: &bz,
            num: Some((&cz, &cz)),
        };
        let zero = E::Scalar::zero();
        proof {
            let g = grid(self.S, vals(E1@), vals(E2@), vals(z@));
            assert(side.first() == g);
            assert(vals(az@).len() == n && vals(bz@).len() == n && vals(cz@).len() == n);
            assert(side_shape(g));
            lemma_between_ends::<E::Scalar>(E1@, E1@);
            lemma_between_ends::<E::Scalar>(E2@, E2@);
            lemma_between_ends::<E::Scalar>(az@, az@);
            lemma_between_ends::<E::Scalar>(bz@, bz@);
            lemma_between_ends::<E::Scalar>(cz@, cz@);
            assert(side.at(0) == g);
        }
        side.claim_at(zero, zero)
    }

    /// Whether the witness belongs to the folded instance.
    pub fn is_sat(
        &self,
        ck: &CommitmentKey<E>,
        U: &FoldedInstance<E>,
        W: &FoldedWitness<E>,
    ) -> (r: Result<(), NovaError>)
        requires
            self.wf(),
        ensures
            r is Ok <==> self.satisfied_by(*ck, *U, *W),
            r is Err ==> r->Err_0 is UnSat,
    {
        let n_E: usize = W.E.len();
        if W.W.len() != self.S.num_vars || U.X.len() != self.S.num_io || n_E != self.left
            + self.right || W.W.len() > ck.ck.len() || n_E > ck.ck.len() {
            return Err(NovaError::UnSat { reason: "wrong length".to_owned() });
        }
        let (E1, E2) = split_scalars(&W.E, self.left);
        let z = full_vector_of(&W.W, U.u, &U.X);
        let sum = self.claim(&E1, &E2, &z);
        if !sum.same(U.T) {
            return Err(NovaError::UnSat { reason: "sum != U.T".to_owned() });
        }
        let comm_W = ck.commit(&W.W, &W.r_W);
        let comm_E = ck.commit(&W.E, &W.r_E);
        if !comm_W.same(U.comm_W) || !comm_E.same(U.comm_E) {
            return Err(NovaError::UnSat { reason: "commitment mismatch".to_owned() });
        }
        Ok(())
    }
}

impl<E: Engine> R1CSShape<E> {
    /// The witness belongs to the instance: they meet the constraints, and the commitment of the
    /// instance opens to the witness.
    pub open spec fn satisfied_by(
        self,
        ck: CommitmentKey<E>,
        U: R1CSInstance<E>,
        W: R1CSWitness<E>,
    ) -> bool {
        &&& W.W@.len() == self.num_vars
        &&& U.X@.len() == self.num_io
        &&& W.W@.len() <= ck.ck@.len()
        &&& self.holds(full_vector(vals(W.W@), 1, vals(U.X@)))
        &&& U.comm_W.log() == ck.commitment(vals(W.W@), W.r_W.val())
    }

    /// Whether the vector meets every constraint.
    pub fn is_met_by(&self, z: &Vec<E::Scalar>) -> (r: bool)
        requires
            self.wf(),
            z@.len() == self.columns(),
        ensures
            r == self.holds(vals(z@)),
    {
        let ghost p = E::Scalar::modulus();
        let ghost zi = vals(z@);
        let n: usize = self.num_cons;
        let az = multiply(&self.A, n, z);
        let bz = multiply(&self.B, n, z);
        let cz = multiply(&self.C, n, z);
        proof {
            E::Scalar::lemma_modulus();
            assert(vals(az@).len() == n && vals(bz@).len() == n && vals(cz@).len() == n);
        }
        let mut i: usize = 0;
        while i < n
            invariant
                i <= n,
                n == self.num_cons,
                p == E::Scalar::modulus(),
                p > 0,
                zi == vals(z@),
                az@.len() == n,
                bz@.len() == n,
                cz@.len() == n,
                vals(az@) == mat_vec(self.A@, n as nat, zi),
                vals(bz@) == mat_vec(self.B@, n as nat, zi),
                vals(cz@) == mat_vec(self.C@, n as nat, zi),
                forall|j: int|
                    0 <= j < i ==> ((#[trigger] mat_row(self.A@, zi, j)) * mat_row(
                        self.B@,
                        zi,
                        j,
                    )) % p == mat_row(self.C@, zi, j) % p,
            decreases n - i,
        {
            let prod = az[i].times(bz[i]);
            proof {
                let (a, b) = (mat_row(self.A@, zi, i as int), mat_row(self.B@, zi, i as int));
                assert(vals(az@)[i as int] == a % p);
                assert(vals(bz@)[i as int] == b % p);
                assert(vals(cz@)[i as int] == mat_row(self.C@, zi, i as int) % p);
                lemma_residue(p, a);
                lemma_residue(p, b);
                lemma_cong_mul(p, a % p, b % p, a, b);
            }
            if !prod.same(cz[i]) {
                return false;
            }
            i = i + 1;
        }
        true
    }

    /// Whether the witness belongs to the instance.
    pub fn is_sat(
        &self,
        ck: &CommitmentKey<E>,
        U: &R1CSInstance<E>,
        W: &R1CSWitness<E>,
    ) -> (r: Result<(), NovaError>)
        requires
            self.wf(),
        ensures
            r is Ok <==> self.satisfied_by(*ck, *U, *W),
            r is Err ==> r->Err_0 is UnSat,
    {
        if W.W.len() != self.num_vars || U.X.len() != self.num_io || W.W.len() > ck.ck.len() {
            return Err(NovaError::UnSat { reason: "wrong length".to_owned() });
        }
        let z = full_vector_of(&W.W, E::Scalar::one(), &U.X);
        if !self.is_met_by(&z) {
            return Err(NovaError::UnSat { reason: "constraint not met".to_owned() });
        }
        let comm_W = ck.commit(&W.W, &W.r_W);
        if !comm_W.same(U.comm_W) {
            return Err(NovaError::UnSat { reason: "commitment mismatch".to_owned() });
        }
        Ok(())
    }
}

/// The product of a row with a vector is the sum, over every entry of the matrix in that row, of
/// the entry times the number in its column.
pub proof fn law_mat_row_sum<F: PrimeField>(m: Seq<(usize, usize, F)>, z: Seq<int>, i: int)
    ensures
        mat_row(m, z, i) == sum(
            m.len(),
            |k: int|
                if m[k].0 == i {
                    m[k].2.val() * z[m[k].1 as int]
                } else {
                    0
                },
        ),
    decreases m.len(),
{
    if m.len() > 0 {
        let t = m.drop_last();
        law_mat_row_sum(t, z, i);
        lemma_sum_same(
            t.len(),
            |k: int|
                if m[k].0 == i {
                    m[k].2.val() * z[m[k].1 as int]
                } else {
                    0
                },
            |k: int|
                if t[k].0 == i {
                    t[k].2.val() * z[t[k].1 as int]
                } else {
                    0
                },
        );
    }
}

/// The weighted sum of what the constraints lack: over all cells of the grid, the weight of the
/// column times that of the row times the difference between the product of the first two matrices
/// and the third one there.
pub proof fn law_grid_claim_sum<E: Engine>(
    S: R1CSShape<E>,
    e1: Seq<int>,
    e2: Seq<int>,
    z: Seq<int>,
)
    requires
        S.num_cons == e1.len() * e2.len(),
    ensures
        grid_claim(S, e1, e2, z) == sum(
            e2.len(),
            |i: int|
                e2[i] * sum(
                    e1.len(),
                    |k: int|
                        e1[k] * (mat_row(S.A@, z, i * e1.len() + k) * mat_row(
                            S.B@,
                            z,
                            i * e1.len() + k,
                        ) - mat_row(S.C@, z, i * e1.len() + k)),
                ),
        ) % E::Scalar::modulus(),
{
    let p = E::Scalar::modulus();
    E::Scalar::lemma_modulus();
    let s = grid(S, e1, e2, z);
    let n = e1.len();
    law_side_claim_sum(s, 0);
    let inner = |i: int|
        sum(
            n,
            |k: int| e1[k] * (s.inv[i * n + k] * (s.base[i * n + k] + 0) - s.num[i * n + k]),
        );
    let direct = |i: int|
        sum(
            n,
            |k: int|
                e1[k] * (mat_row(S.A@, z, i * n + k) * mat_row(S.B@, z, i * n + k) - mat_row(
                    S.C@,
                    z,
                    i * n + k,
                )),
        );
    let f = |i: int| e2[i] * inner(i);
    let g = |i: int| e2[i] * direct(i);
    assert forall|i: int| 0 <= i < e2.len() implies #[trigger] f(i) % p == g(i) % p by {
        let a = |k: int| e1[k] * (s.inv[i * n + k] * (s.base[i * n + k] + 0) - s.num[i * n + k]);
        let b = |k: int|
            e1[k] * (mat_row(S.A@, z, i * n + k) * mat_row(S.B@, z, i * n + k) - mat_row(
                S.C@,
                z,
                i * n + k,
            ));
        assert forall|k: int| 0 <= k < n implies #[trigger] a(k) % p == b(k) % p by {
            let c = i * n + k;
            assert(0 <= c < n * e2.len()) by (nonlinear_arith)
                requires
                    0 <= k < n,
                    0 <= i < e2.len(),
                    c == i * n + k,
            ;
            let (x, y, w) = (mat_row(S.A@, z, c), mat_row(S.B@, z, c), mat_row(S.C@, z, c));
            lemma_residue(p, x);
            lemma_residue(p, y);
            lemma_residue(p, w);
            lemma_cong_mul(p, x % p, y % p, x, y);
            lemma_cong_sub(p, (x % p) * (y % p), w % p, x * y, w);
            lemma_cong_mul(p, e1[k], (x % p) * (y % p) - w % p, e1[k], x * y - w);
        }
        lemma_sum_cong(p, n, a, b);
        assert(inner(i) == sum(n, a));
        assert(direct(i) == sum(n, b));
        lemma_cong_mul(p, e2[i], inner(i), e2[i], direct(i));
    }
    lemma_sum_cong(p, e2.len(), f, g);
    let f2 = |i: int|
        s.eq_right[i] * sum(
            s.eq_left.len(),
            |k: int|
                s.eq_left[k] * (s.inv[i * s.eq_left.len() + k] * (s.base[i * s.eq_left.len() + k]
                    + 0) - s.num[i * s.eq_left.len() + k]),
        );
    assert(side_claim(s, 0) == sum(e2.len(), f2));
    lemma_sum_same(e2.len(), f2, f);
    let g2 = |i: int|
        e2[i] * sum(
            e1.len(),
            |k: int|
                e1[k] * (mat_row(S.A@, z, i * e1.len() + k) * mat_row(S.B@, z, i * e1.len() + k)
                    - mat_row(S.C@, z, i * e1.len() + k)),
        );
    lemma_sum_same(e2.len(), g2, g);
}

/// The vector that the matrices are applied to holds the private values, then the scalar, then the
/// public values.
pub proof fn law_full_vector_order(w: Seq<int>, u: int, x: Seq<int>)
    ensures
        full_vector(w, u, x).len() == w.len() + 1 + x.len(),
        forall|k: int| 0 <= k < w.len() ==> full_vector(w, u, x)[k] == #[trigger] w[k],
        full_vector(w, u, x)[w.len() as int] == u,
        forall|k: int|
            0 <= k < x.len() ==> full_vector(w, u, x)[w.len() + 1 + k] == #[trigger] x[k],
{
}

/// A vector holds of a constraint system exactly if, in every row, the product of the first two
/// matrices is the third one.
pub proof fn law_held_rows<E: Engine>(S: R1CSShape<E>, z: Seq<int>)
    ensures
        S.holds(z) <==> forall|i: int|
            0 <= i < S.num_cons ==> ((#[trigger] mat_row(S.A@, z, i)) * mat_row(S.B@, z, i)
                - mat_row(S.C@, z, i)) % E::Scalar::modulus() == 0,
{
    let p = E::Scalar::modulus();
    E::Scalar::lemma_modulus();
    assert forall|i: int| 0 <= i < S.num_cons implies ((((#[trigger] mat_row(S.A@, z, i))
        * mat_row(S.B@, z, i) - mat_row(S.C@, z, i)) % p == 0) <==> (mat_row(S.A@, z, i) * mat_row(
        S.B@,
        z,
        i,
    )) % p == mat_row(S.C@, z, i) % p) by {
        lemma_cong_diff(p, mat_row(S.A@, z, i) * mat_row(S.B@, z, i), mat_row(S.C@, z, i));
    }
}

/// A witness belongs to an instance of the step circuit exactly if it has the right length, every
/// row of the matrices holds of the witness, one and the public values, and the commitment of the
/// instance is the one to the witness under its blinding.
pub proof fn law_step_satisfied<E: Engine>(
    S: R1CSShape<E>,
    ck: CommitmentKey<E>,
    U: R1CSInstance<E>,
    W: R1CSWitness<E>,
)
    ensures
        S.satisfied_by(ck, U, W) <==> {
            let z = vals(W.W@) + seq![1int] + vals(U.X@);
            &&& W.W@.len() == S.num_vars
            &&& U.X@.len() == S.num_io
            &&& W.W@.len() <= ck.ck@.len()
            &&& forall|i: int|
                0 <= i < S.num_cons ==> ((#[trigger] mat_row(S.A@, z, i)) * mat_row(S.B@, z, i)
                    - mat_row(S.C@, z, i)) % E::Scalar::modulus() == 0
            &&& U.comm_W.log() == ck.commitment(vals(W.W@), W.r_W.val())
        },
{
    let z = vals(W.W@) + seq![1int] + vals(U.X@);
    assert(full_vector(vals(W.W@), 1, vals(U.X@)) =~= z);
    law_held_rows(S, z);
}

/// A witness belongs to a folded instance exactly if it has the right lengths, the weighted sum
/// over the grid of what every constraint lacks is the claim of the instance, and the commitments
/// of the instance are those to the private values and to the weights under their blindings.
pub proof fn law_folded_satisfied<E: Engine>(
    structure: Structure<E>,
    ck: CommitmentKey<E>,
    U: FoldedInstance<E>,
    W: FoldedWitness<E>,
)
    requires
        structure.wf(),
    ensures
        structure.satisfied_by(ck, U, W) <==> {
            let S = structure.S;
            let n = structure.left as nat;
            let z = vals(W.W@) + seq![U.u.val()] + vals(U.X@);
            &&& W.W@.len() == S.num_vars
            &&& U.X@.len() == S.num_io
            &&& W.E@.len() == structure.left + structure.right
            &&& W.W@.len() <= ck.ck@.len()
            &&& W.E@.len() <= ck.ck@.len()
            &&& U.T.val() == sum(
                structure.right as nat,
                |i: int|
                    W.E@[n + i].val() * sum(
                        n,
                        |k: int|
                            W.E@[k].val() * (mat_row(S.A@, z, i * n + k) * mat_row(
                                S.B@,
                                z,
                                i * n + k,
                            ) - mat_row(S.C@, z, i * n + k)),
                    ),
            ) % E::Scalar::modulus()
            &&& U.comm_W.log() == ck.commitment(vals(W.W@), W.r_W.val())
            &&& U.comm_E.log() == ck.commitment(vals(W.E@), W.r_E.val())
        },
{
    let S = structure.S;
    let n = structure.left as nat;
    let m = structure.right as nat;
    let z = vals(W.W@) + seq![U.u.val()] + vals(U.X@);
    assert(full_vector(vals(W.W@), U.u.val(), vals(U.X@)) =~= z);
    if W.E@.len() == n + m {
        let e = vals(W.E@);
        let (e1, e2) = (e.take(n as int), e.skip(n as int));
        law_grid_claim_sum(S, e1, e2, z);
        let inner = |i: int|
            sum(
                n,
                |k: int|
                    e1[k] * (mat_row(S.A@, z, i * n + k) * mat_row(S.B@, z, i * n + k) - mat_row(
                        S.C@,
                        z,
                        i * n + k,
                    )),
            );
        let direct = |i: int|
            sum(
                n,
                |k: int|
                    W.E@[k].val() * (mat_row(S.A@, z, i * n + k) * mat_row(S.B@, z, i * n + k)
                        - mat_row(S.C@, z, i * n + k)),
            );
        let f = |i: int|
            e2[i] * sum(
                e1.len(),
                |k: int|
                    e1[k] * (mat_row(S.A@, z, i * e1.len() + k) * mat_row(
                        S.B@,
                        z,
                        i * e1.len() + k,
                    ) - mat_row(S.C@, z, i * e1.len() + k)),
            );
        let g = |i: int|
            W.E@[n + i].val() * sum(
                n,
                |k: int|
                    W.E@[k].val() * (mat_row(S.A@, z, i * n + k) * mat_row(S.B@, z, i * n + k)
                        - mat_row(S.C@, z, i * n + k)),
            );
        assert forall|i: int| 0 <= i < m implies #[trigger] f(i) == g(i) by {
            lemma_sum_same(
                n,
                |k: int|
                    e1[k] * (mat_row(S.A@, z, i * n + k) * mat_row(S.B@, z, i * n + k) - mat_row(
                        S.C@,
                        z,
                        i * n + k,
                    )),
                |k: int|
                    W.E@[k].val() * (mat_row(S.A@, z, i * n + k) * mat_row(S.B@, z, i * n + k)
                        - mat_row(S.C@, z, i * n + k)),
            );
            assert(inner(i) == direct(i));
            assert(e2[i] == W.E@[n + i].val());
        }
        lemma_sum_same(m, f, g);
    }
}

} // verus!
