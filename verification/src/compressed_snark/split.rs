//! The commitment to the weights of a folded instance, split into those of their two halves.

use crate::commitment::{lemma_msm_split, lemma_msm_zeros, logs, msm, CommitmentKey};
use crate::engine::{Engine, Group};
use crate::errors::NovaError;
use crate::field::{
    lemma_cong_add, lemma_cong_mul, lemma_cong_sub, lemma_reduced, lemma_residue, PrimeField,
};
use crate::poly::vals;
use crate::random::random_scalar;
use crate::relation::{zeros, FoldedInstance};
use crate::structure::{split_scalars, FoldedWitness, Structure};
use vstd::prelude::*;

verus! {

/// The commitments to the two halves of the weights: to the first half, to the second half on the
/// generators behind those of the first, and to the second half on the first generators.
pub struct SplitECommitments<E: Engine> {
    pub comm_E1: E::GE,
    pub comm_E2_bind: E::GE,
    pub comm_E2_pcs: E::GE,
    pub r_E1: E::Scalar,
    pub r_E2_bind: E::Scalar,
    pub r_E2_pcs: E::Scalar,
}

/// A sequence behind a number of zeros.
pub open spec fn behind_zeros(n: nat, v: Seq<int>) -> Seq<int> {
    Seq::new(n, |i: int| 0int) + v
}

/// A vector behind a number of zeros.
pub fn pad_front<F: PrimeField>(n: usize, v: &Vec<F>) -> (r: Vec<F>)
    ensures
        vals(r@) == behind_zeros(n as nat, vals(v@)),
        r@.len() == n + v@.len(),
{
    let mut r = zeros::<F>(n);
    let ghost head = r@;
    let m: usize = v.len();
    let mut i: usize = 0;
    assert(r@ =~= head + v@.take(0));
    while i < m
        invariant
            i <= m,
            m == v@.len(),
            r@ == head + v@.take(i as int),
        decreases m - i,
    {
        r.push(v[i]);
        assert(r@ =~= head + v@.take(i as int + 1));
        i = i + 1;
    }
    proof {
        assert(v@.take(m as int) =~= v@);
        assert forall|j: int| 0 <= j < r@.len() implies #[trigger] vals(r@)[j] == behind_zeros(
            n as nat,
            vals(v@),
        )[j] by {
            if j < n {
                assert(vals(head)[j] == 0);
            }
        }
        assert(vals(r@) =~= behind_zeros(n as nat, vals(v@)));
    }
    r
}

/// The commitments of a split are those to the halves of `e` under its blindings, and the two
/// blindings of the first two commitments add up to `r_e`.
pub open spec fn splits<E: Engine>(
    s: SplitECommitments<E>,
    ck: CommitmentKey<E>,
    e: Seq<int>,
    left: nat,
    r_e: int,
) -> bool {
    let e1 = e.take(left as int);
    let e2 = e.skip(left as int);
    &&& s.comm_E1.log() == ck.commitment(e1, s.r_E1.val())
    &&& s.comm_E2_bind.log() == ck.commitment(behind_zeros(left, e2), s.r_E2_bind.val())
    &&& s.comm_E2_pcs.log() == ck.commitment(e2, s.r_E2_pcs.val())
    &&& (s.r_E1.val() + s.r_E2_bind.val()) % E::Scalar::modulus() == r_e
}

/// A commitment on the generators behind `n` others is that to the vector behind `n` zeros.
pub proof fn lemma_behind_zeros(n: nat, v: Seq<int>, g: Seq<int>)
    requires
        n + v.len() <= g.len(),
    ensures
        msm(behind_zeros(n, v), g) == msm(v, g.skip(n as int)),
{
    lemma_msm_split(Seq::new(n, |i: int| 0int), v, g);
    lemma_msm_zeros(n, g);
}

/// The commitments to the first half, and to the second half on the generators behind, add up to
/// the commitment to the whole under the sum of the blindings.
pub proof fn law_additive_binding<E: Engine>(
    ck: CommitmentKey<E>,
    e1: Seq<int>,
    e2: Seq<int>,
    r1: int,
    r2: int,
    r: int,
)
    requires
        e1.len() + e2.len() <= ck.ck@.len(),
        (r1 + r2) % E::Scalar::modulus() == r % E::Scalar::modulus(),
    ensures
        (ck.commitment(e1, r1) + ck.commitment(behind_zeros(e1.len(), e2), r2))
            % E::Scalar::modulus() == ck.commitment(e1 + e2, r),
{
    let p = E::Scalar::modulus();
    E::Scalar::lemma_modulus();
    let g = logs::<E>(ck.ck@);
    let h = ck.h.log();
    lemma_behind_zeros(e1.len(), e2, g);
    lemma_msm_split(e1, e2, g);
    let a = msm(e1, g) + r1 * h;
    let b = msm(e2, g.skip(e1.len() as int)) + r2 * h;
    lemma_residue(p, a);
    lemma_residue(p, b);
    lemma_cong_add(p, a % p, b % p, a, b);
    assert(a + b == msm(e1 + e2, g) + (r1 + r2) * h) by (nonlinear_arith)
        requires
            a == msm(e1, g) + r1 * h,
            b == msm(e2, g.skip(e1.len() as int)) + r2 * h,
            msm(e1 + e2, g) == msm(e1, g) + msm(e2, g.skip(e1.len() as int)),
    ;
    lemma_cong_mul(p, r1 + r2, h, r, h);
    lemma_cong_add(p, msm(e1 + e2, g), (r1 + r2) * h, msm(e1 + e2, g), r * h);
}

/// Splits the commitment to the weights, under given blindings of the first half and of the
/// second half on the first generators.
pub fn split_E_commitments_with<E: Engine>(
    ck: &CommitmentKey<E>,
    W: &FoldedWitness<E>,
    structure: &Structure<E>,
    r_E1: E::Scalar,
    r_E2_pcs: E::Scalar,
) -> (r: SplitECommitments<E>)
    requires
        W.E@.len() == structure.left + structure.right,
        W.E@.len() <= ck.ck@.len(),
    ensures
        r.r_E1 == r_E1,
        r.r_E2_pcs == r_E2_pcs,
        splits(r, *ck, vals(W.E@), structure.left as nat, W.r_E.val()),
        (r.comm_E1.log() + r.comm_E2_bind.log()) % E::Scalar::modulus() == ck.commitment(
            vals(W.E@),
            W.r_E.val(),
        ),
{
    let ghost p = E::Scalar::modulus();
    let ghost e = vals(W.E@);
    let (E1, E2) = split_scalars(&W.E, structure.left);
    let r_E2_bind = W.r_E.minus(r_E1);
    let comm_E1 = ck.commit(&E1, &r_E1);
    let e2_padded = pad_front(structure.left, &E2);
    let comm_E2_bind = ck.commit(&e2_padded, &r_E2_bind);
    let comm_E2_pcs = ck.commit(&E2, &r_E2_pcs);
    proof {
        E::Scalar::lemma_modulus();
        let l = structure.left as int;
        lemma_residue(p, W.r_E.val() - r_E1.val());
        lemma_cong_add(p, r_E1.val(), r_E2_bind.val(), r_E1.val(), W.r_E.val() - r_E1.val());
        E::Scalar::lemma_val(W.r_E);
        lemma_reduced(p, W.r_E.val());
        assert(e =~= e.take(l) + e.skip(l));
        law_additive_binding(
            *ck,
            e.take(l),
            e.skip(l),
            r_E1.val(),
            r_E2_bind.val(),
            W.r_E.val(),
        );
    }
    SplitECommitments { comm_E1, comm_E2_bind, comm_E2_pcs, r_E1, r_E2_bind, r_E2_pcs }
}

/// Splits the commitment to the weights under blindings from the operating system.
pub fn split_E_commitments<E: Engine>(
    ck: &CommitmentKey<E>,
    W: &FoldedWitness<E>,
    _U: &FoldedInstance<E>,
    structure: &Structure<E>,
) -> (r: Result<SplitECommitments<E>, NovaError>)
    requires
        W.E@.len() == structure.left + structure.right,
        W.E@.len() <= ck.ck@.len(),
    ensures
        r is Err ==> r == Err::<SplitECommitments<E>, NovaError>(
            NovaError::RandomnessUnavailable,
        ),
        r is Ok ==> {
            &&& splits(r->Ok_0, *ck, vals(W.E@), structure.left as nat, W.r_E.val())
            &&& (r->Ok_0.comm_E1.log() + r->Ok_0.comm_E2_bind.log()) % E::Scalar::modulus()
                == ck.commitment(vals(W.E@), W.r_E.val())
        },
{
    let r_E1 = match random_scalar::<E::Scalar>() {
        Ok(x) => x,
        Err(_) => {
            return Err(NovaError::RandomnessUnavailable);
        },
    };
    let r_E2_pcs = match random_scalar::<E::Scalar>() {
        Ok(x) => x,
        Err(_) => {
            return Err(NovaError::RandomnessUnavailable);
        },
    };
    Ok(split_E_commitments_with(ck, W, structure, r_E1, r_E2_pcs))
}

/// What a commitment is worth without its blinding.
pub proof fn law_derandomized<E: Engine>(ck: CommitmentKey<E>, v: Seq<int>, r: int)
    ensures
        (ck.commitment(v, r) - r * ck.h.log()) % E::Scalar::modulus() == ck.commitment(v, 0),
{
    let p = E::Scalar::modulus();
    E::Scalar::lemma_modulus();
    let m = msm(v, logs::<E>(ck.ck@));
    let h = ck.h.log();
    lemma_residue(p, m + r * h);
    lemma_cong_sub(p, (m + r * h) % p, r * h, m + r * h, r * h);
    assert(0 * h == 0);
}

} // verus!
