//! The proof that two commitments open to the same second half of the weights.

use super::rejection::{rejected_as, rejection, verdict, Rejection};
use super::split::{behind_zeros, pad_front};
use crate::commitment::{
    lemma_msm_cong, lemma_msm_linear, lemma_msm_zeros, logs, msm, CommitmentKey,
};
use crate::engine::{Engine, Group};
use crate::errors::NovaError;
use crate::field::{
    lemma_cong_add, lemma_cong_diff, lemma_cong_mul, lemma_cong_sub, lemma_inverse_exists,
    lemma_no_zero_divisors, lemma_reduced, lemma_residue, PrimeField,
};
use crate::poly::vals;
use crate::random::{random_scalar, random_scalars};
use crate::structure::Structure;
use crate::text::{append_number, decimal};
use crate::transcript::{absorbed, exhausted, next_challenge, squeezed, Transcript, TranscriptVal};
use vstd::prelude::*;
use vstd::string::StringExecFns;

verus! {

/// The proof: two commitments to the same mask, and the answers to the challenge.
pub struct SigmaE2EqualityProof<E: Engine> {
    pub T_bind: E::GE,
    pub T_pcs: E::GE,
    pub z: Vec<E::Scalar>,
    pub z_r_bind: E::Scalar,
    pub z_r_pcs: E::Scalar,
}

/// The answer to the challenge on the first commitment is wrong.
pub const BIND_SIDE: &'static str = "Sigma E2 equality-of-opening rejected at bind-side";

/// The answer to the challenge on the second commitment is wrong.
pub const PCS_SIDE: &'static str = "Sigma E2 equality-of-opening rejected at pcs-side";

/// The answer does not have the right length.
pub open spec fn length_reason(z: nat, right: nat) -> Seq<char> {
    "Sigma E2 equality-of-opening rejected at structural check: proof.z.len() ("@ + decimal(z)
        + ") != structure.right ("@ + decimal(right) + ")"@
}

/// The transcript after everything that the challenge depends on.
pub open spec fn sigma_absorbed<E: Engine>(
    t: TranscriptVal,
    r_U_comm_E: int,
    comm_E1: int,
    comm_E2_bind: int,
    comm_E2_pcs: int,
    T_bind: int,
    T_pcs: int,
) -> TranscriptVal {
    let t1 = absorbed(t, "r_U_comm_E"@, E::GE::bytes(r_U_comm_E));
    let t2 = absorbed(t1, "comm_E1"@, E::GE::bytes(comm_E1));
    let t3 = absorbed(t2, "comm_E2_bind"@, E::GE::bytes(comm_E2_bind));
    let t4 = absorbed(t3, "comm_E2_pcs"@, E::GE::bytes(comm_E2_pcs));
    let t5 = absorbed(t4, "sigma_T_bind"@, E::GE::bytes(T_bind));
    absorbed(t5, "sigma_T_pcs"@, E::GE::bytes(T_pcs))
}

/// The challenge.
pub open spec fn sigma_alpha<E: Engine>(t: TranscriptVal) -> int {
    next_challenge::<E>(t, "sigma_E2_equality_alpha"@)
}

/// The transcript behind the challenge.
pub open spec fn sigma_squeezed(t: TranscriptVal) -> TranscriptVal {
    squeezed(t, "sigma_E2_equality_alpha"@)
}

/// The answer opens the first commitment of the proof plus the challenge times the other one.
pub open spec fn answers<E: Engine>(
    ck: CommitmentKey<E>,
    z: Seq<int>,
    z_r: int,
    t: int,
    comm: int,
    alpha: int,
) -> bool {
    ck.commitment(z, z_r) == (t + (alpha * comm) % E::Scalar::modulus()) % E::Scalar::modulus()
}

/// The proof answers the challenge on both commitments.
pub open spec fn sigma_accepts<E: Engine>(
    ck: CommitmentKey<E>,
    left: nat,
    proof: SigmaE2EqualityProof<E>,
    comm_E2_bind: int,
    comm_E2_pcs: int,
    alpha: int,
) -> bool {
    &&& answers(
        ck,
        behind_zeros(left, vals(proof.z@)),
        proof.z_r_bind.val(),
        proof.T_bind.log(),
        comm_E2_bind,
        alpha,
    )
    &&& answers(
        ck,
        vals(proof.z@),
        proof.z_r_pcs.val(),
        proof.T_pcs.log(),
        comm_E2_pcs,
        alpha,
    )
}

/// Why the proof is rejected, if it is.
pub open spec fn sigma_rejection<E: Engine>(
    ck: CommitmentKey<E>,
    structure: Structure<E>,
    comm_E1: int,
    comm_E2_bind: int,
    comm_E2_pcs: int,
    r_U_comm_E: int,
    proof: SigmaE2EqualityProof<E>,
    t: TranscriptVal,
) -> Option<Rejection> {
    let t1 = sigma_absorbed::<E>(
        t,
        r_U_comm_E,
        comm_E1,
        comm_E2_bind,
        comm_E2_pcs,
        proof.T_bind.log(),
        proof.T_pcs.log(),
    );
    let alpha = sigma_alpha::<E>(t1);
    if proof.z@.len() != structure.right {
        Some(Rejection::Reason(length_reason(proof.z@.len(), structure.right as nat)))
    } else if exhausted(t) {
        Some(Rejection::Exhausted)
    } else if !answers(
        ck,
        behind_zeros(structure.left as nat, vals(proof.z@)),
        proof.z_r_bind.val(),
        proof.T_bind.log(),
        comm_E2_bind,
        alpha,
    ) {
        Some(Rejection::Reason(BIND_SIDE@))
    } else if !answers(
        ck,
        vals(proof.z@),
        proof.z_r_pcs.val(),
        proof.T_pcs.log(),
        comm_E2_pcs,
        alpha,
    ) {
        Some(Rejection::Reason(PCS_SIDE@))
    } else {
        None
    }
}

/// A proof that is made from the masks `rho`, `sigma_bind` and `sigma_pcs` under a challenge.
pub open spec fn sigma_made_from<E: Engine>(
    proof: SigmaE2EqualityProof<E>,
    ck: CommitmentKey<E>,
    left: nat,
    e2: Seq<int>,
    r_bind: int,
    r_pcs: int,
    rho: Seq<int>,
    sigma_bind: int,
    sigma_pcs: int,
    alpha: int,
) -> bool {
    let p = E::Scalar::modulus();
    &&& rho.len() == e2.len()
    &&& proof.T_bind.log() == ck.commitment(behind_zeros(left, rho), sigma_bind)
    &&& proof.T_pcs.log() == ck.commitment(rho, sigma_pcs)
    &&& vals(proof.z@) == Seq::new(e2.len(), |i: int| (rho[i] + alpha * e2[i]) % p)
    &&& proof.z_r_bind.val() == (sigma_bind + alpha * r_bind) % p
    &&& proof.z_r_pcs.val() == (sigma_pcs + alpha * r_pcs) % p
}

/// A commitment to a mask plus a multiple is the commitment to the mask plus the multiple of the
/// commitment.
pub proof fn lemma_masked<E: Engine>(
    ck: CommitmentKey<E>,
    rho: Seq<int>,
    v: Seq<int>,
    alpha: int,
    s: int,
    r: int,
    z: Seq<int>,
    z_r: int,
)
    requires
        rho.len() == v.len(),
        z.len() == v.len(),
        v.len() <= ck.ck@.len(),
        forall|i: int|
            0 <= i < v.len() ==> #[trigger] z[i] % E::Scalar::modulus() == (rho[i] + alpha * v[i])
                % E::Scalar::modulus(),
        z_r % E::Scalar::modulus() == (s + alpha * r) % E::Scalar::modulus(),
    ensures
        answers(ck, z, z_r, ck.commitment(rho, s), ck.commitment(v, r), alpha),
{
    let p = E::Scalar::modulus();
    E::Scalar::lemma_modulus();
    let g = logs::<E>(ck.ck@);
    let h = ck.h.log();
    let sum = Seq::new(v.len(), |i: int| rho[i] + alpha * v[i]);
    assert forall|i: int| 0 <= i < z.len() implies #[trigger] z[i] % p == sum[i] % p by {}
    lemma_msm_cong(p, z, sum, g);
    assert(sum =~= Seq::new(rho.len(), |i: int| rho[i] + alpha * v[i]));
    lemma_msm_linear(rho, alpha, v, g);
    let a = msm(rho, g);
    let b = msm(v, g);
    lemma_cong_mul(p, z_r, h, s + alpha * r, h);
    lemma_cong_add(p, msm(z, g), z_r * h, a + alpha * b, (s + alpha * r) * h);
    assert((a + alpha * b) + (s + alpha * r) * h == (a + s * h) + alpha * (b + r * h))
        by (nonlinear_arith);
    lemma_residue(p, a + s * h);
    lemma_residue(p, b + r * h);
    lemma_cong_mul(p, alpha, (b + r * h) % p, alpha, b + r * h);
    let m = alpha * ((b + r * h) % p);
    lemma_residue(p, m);
    lemma_cong_add(p, (a + s * h) % p, m % p, a + s * h, alpha * (b + r * h));
}

/// The vector `e2`, behind zeros, plays the same part on both commitments: what is made from one
/// mask answers every challenge.
pub proof fn law_sigma_complete<E: Engine>(
    ck: CommitmentKey<E>,
    left: nat,
    proof: SigmaE2EqualityProof<E>,
    e2: Seq<int>,
    r_bind: int,
    r_pcs: int,
    rho: Seq<int>,
    sigma_bind: int,
    sigma_pcs: int,
    alpha: int,
)
    requires
        left + e2.len() <= ck.ck@.len(),
        sigma_made_from(
            proof,
            ck,
            left,
            e2,
            r_bind,
            r_pcs,
            rho,
            sigma_bind,
            sigma_pcs,
            alpha,
        ),
    ensures
        sigma_accepts(
            ck,
            left,
            proof,
            ck.commitment(behind_zeros(left, e2), r_bind),
            ck.commitment(e2, r_pcs),
            alpha,
        ),
{
    let p = E::Scalar::modulus();
    E::Scalar::lemma_modulus();
    let z = vals(proof.z@);
    assert forall|i: int| 0 <= i < e2.len() implies #[trigger] z[i] % p == (rho[i] + alpha
        * e2[i]) % p by {
        lemma_residue(p, rho[i] + alpha * e2[i]);
    }
    lemma_residue(p, sigma_bind + alpha * r_bind);
    lemma_residue(p, sigma_pcs + alpha * r_pcs);
    lemma_masked(ck, rho, e2, alpha, sigma_pcs, r_pcs, z, proof.z_r_pcs.val());
    let zb = behind_zeros(left, z);
    let rb = behind_zeros(left, rho);
    let eb = behind_zeros(left, e2);
    assert forall|i: int| 0 <= i < eb.len() implies #[trigger] zb[i] % p == (rb[i] + alpha
        * eb[i]) % p by {
        if i < left {
            assert(alpha * 0 == 0) by (nonlinear_arith);
        } else {
            assert(z[i - left] % p == (rho[i - left] + alpha * e2[i - left]) % p);
        }
    }
    lemma_masked(ck, rb, eb, alpha, sigma_bind, r_bind, zb, proof.z_r_bind.val());
}

/// A proof that is made for one pair of commitments under one challenge is accepted against
/// another pair under another challenge only where the challenge times the commitment is the same
/// on both sides. A commitment to another vector is thus rejected for all challenges but those.
pub proof fn law_sigma_rejects_others<E: Engine>(
    ck: CommitmentKey<E>,
    left: nat,
    proof: SigmaE2EqualityProof<E>,
    e2: Seq<int>,
    r_bind: int,
    r_pcs: int,
    rho: Seq<int>,
    sigma_bind: int,
    sigma_pcs: int,
    alpha: int,
    other_bind: int,
    other_pcs: int,
    other_alpha: int,
)
    requires
        left + e2.len() <= ck.ck@.len(),
        sigma_made_from(
            proof,
            ck,
            left,
            e2,
            r_bind,
            r_pcs,
            rho,
            sigma_bind,
            sigma_pcs,
            alpha,
        ),
    ensures
        sigma_accepts(ck, left, proof, other_bind, other_pcs, other_alpha) <==> {
            let p = E::Scalar::modulus();
            &&& (other_alpha * other_bind) % p == (alpha * ck.commitment(
                behind_zeros(left, e2),
                r_bind,
            )) % p
            &&& (other_alpha * other_pcs) % p == (alpha * ck.commitment(e2, r_pcs)) % p
        },
{
    let p = E::Scalar::modulus();
    E::Scalar::lemma_modulus();
    law_sigma_complete(
        ck,
        left,
        proof,
        e2,
        r_bind,
        r_pcs,
        rho,
        sigma_bind,
        sigma_pcs,
        alpha,
    );
    lemma_same_shift(
        p,
        proof.T_bind.log(),
        other_alpha * other_bind,
        alpha * ck.commitment(behind_zeros(left, e2), r_bind),
    );
    lemma_same_shift(
        p,
        proof.T_pcs.log(),
        other_alpha * other_pcs,
        alpha * ck.commitment(e2, r_pcs),
    );
}

/// Sums with one summand in common are congruent where the other summands are.
proof fn lemma_same_shift(p: int, t: int, a: int, b: int)
    requires
        p > 0,
    ensures
        (t + a % p) % p == (t + b % p) % p <==> a % p == b % p,
{
    lemma_residue(p, a);
    lemma_residue(p, b);
    if (t + a % p) % p == (t + b % p) % p {
        lemma_cong_sub(p, t + a % p, t, t + b % p, t);
    }
}

/// A sum in which one entry is changed.
pub proof fn lemma_msm_update(v: Seq<int>, g: Seq<int>, i: int, x: int)
    requires
        0 <= i < v.len() <= g.len(),
    ensures
        msm(v.update(i, x), g) == msm(v, g) + (x - v[i]) * g[i],
    decreases v.len(),
{
    let n = v.len() - 1;
    let u = v.update(i, x);
    if i < n {
        lemma_msm_update(v.drop_last(), g, i, x);
        assert(u.drop_last() =~= v.drop_last().update(i, x));
    } else {
        assert(u.drop_last() =~= v.drop_last());
        assert(x * g[n] == v[n] * g[n] + (x - v[n]) * g[n]) by (nonlinear_arith);
    }
}

/// An answer that is accepted is not accepted with one entry changed, where the generator that
/// the entry meets is not neutral; where it is neutral, the change is not seen.
pub proof fn lemma_answer_changed<E: Engine>(
    ck: CommitmentKey<E>,
    z: Seq<int>,
    z_r: int,
    t: int,
    comm: int,
    alpha: int,
    i: int,
    x: int,
)
    requires
        0 <= i < z.len() <= ck.ck@.len(),
        answers(ck, z, z_r, t, comm, alpha),
        x % E::Scalar::modulus() != z[i] % E::Scalar::modulus(),
    ensures
        answers(ck, z.update(i, x), z_r, t, comm, alpha) <==> ck.ck@[i].log()
            % E::Scalar::modulus() == 0,
{
    let p = E::Scalar::modulus();
    E::Scalar::lemma_modulus();
    let g = logs::<E>(ck.ck@);
    let h = ck.h.log();
    lemma_msm_update(z, g, i, x);
    let a = msm(z, g) + z_r * h;
    let d = (x - z[i]) * g[i];
    assert(msm(z.update(i, x), g) + z_r * h == a + d);
    lemma_cong_diff(p, a + d, a);
    lemma_cong_diff(p, x, z[i]);
    if d % p == 0 {
        lemma_no_zero_divisors(p, x - z[i], g[i]);
    }
    if g[i] % p == 0 {
        lemma_reduced(p, 0);
        lemma_cong_mul(p, x - z[i], g[i], x - z[i], 0);
        assert((x - z[i]) * 0 == 0);
    }
}

/// The opening that two answers to different challenges give away.
pub open spec fn extracted(p: int, z1: Seq<int>, z2: Seq<int>, inv: int) -> Seq<int> {
    Seq::new(z1.len(), |i: int| ((z1[i] - z2[i]) * inv) % p)
}

/// Two answers on one commitment under different challenges open it.
pub proof fn lemma_extract<E: Engine>(
    ck: CommitmentKey<E>,
    z1: Seq<int>,
    r1: int,
    z2: Seq<int>,
    r2: int,
    t: int,
    comm: int,
    alpha1: int,
    alpha2: int,
    inv: int,
)
    requires
        z1.len() == z2.len(),
        z1.len() <= ck.ck@.len(),
        answers(ck, z1, r1, t, comm, alpha1),
        answers(ck, z2, r2, t, comm, alpha2),
        ((alpha1 - alpha2) * inv) % E::Scalar::modulus() == 1,
        0 <= comm < E::Scalar::modulus(),
    ensures
        comm == ck.commitment(extracted(E::Scalar::modulus(), z1, z2, inv), (r1 - r2) * inv),
{
    let p = E::Scalar::modulus();
    E::Scalar::lemma_modulus();
    let g = logs::<E>(ck.ck@);
    let h = ck.h.log();
    let e = extracted(p, z1, z2, inv);
    let d = Seq::new(z1.len(), |i: int| z1[i] + (-1int) * z2[i]);
    lemma_msm_linear(z1, -1, z2, g);
    let zero = Seq::new(z1.len(), |i: int| 0int);
    lemma_msm_zeros(z1.len(), g);
    let s = Seq::new(z1.len(), |i: int| zero[i] + inv * d[i]);
    assert(s =~= Seq::new(zero.len(), |i: int| zero[i] + inv * d[i]));
    lemma_msm_linear(zero, inv, d, g);
    assert forall|i: int| 0 <= i < e.len() implies #[trigger] e[i] % p == s[i] % p by {
        lemma_residue(p, (z1[i] - z2[i]) * inv);
        assert((z1[i] - z2[i]) * inv == 0 + inv * (z1[i] + (-1int) * z2[i])) by (nonlinear_arith);
    }
    lemma_msm_cong(p, e, s, g);
    let a = msm(z1, g);
    let b = msm(z2, g);
    let x1 = a + r1 * h;
    let x2 = b + r2 * h;
    lemma_cong_add(p, msm(e, g), ((r1 - r2) * inv) * h, inv * (a - b), ((r1 - r2) * inv) * h);
    assert(inv * (a - b) + ((r1 - r2) * inv) * h == inv * (x1 - x2)) by (nonlinear_arith)
        requires
            x1 == a + r1 * h,
            x2 == b + r2 * h,
    ;
    let m1 = alpha1 * comm;
    let m2 = alpha2 * comm;
    lemma_residue(p, m1);
    lemma_residue(p, m2);
    lemma_cong_add(p, t, m1 % p, t, m1);
    lemma_cong_add(p, t, m2 % p, t, m2);
    lemma_residue(p, x1);
    lemma_residue(p, x2);
    lemma_cong_sub(p, x1, x2, t + m1, t + m2);
    lemma_cong_mul(p, inv, x1 - x2, inv, (t + m1) - (t + m2));
    assert(inv * ((t + m1) - (t + m2)) == ((alpha1 - alpha2) * inv) * comm) by (nonlinear_arith)
        requires
            m1 == alpha1 * comm,
            m2 == alpha2 * comm,
    ;
    lemma_reduced(p, 1);
    lemma_cong_mul(p, (alpha1 - alpha2) * inv, comm, 1, comm);
    lemma_reduced(p, comm);
    assert(1 * comm == comm);
}

/// Two accepting proofs with the same first move and different challenges give away one vector
/// that both commitments open to.
pub proof fn law_sigma_special_sound<E: Engine>(
    ck: CommitmentKey<E>,
    left: nat,
    proof1: SigmaE2EqualityProof<E>,
    proof2: SigmaE2EqualityProof<E>,
    comm_E2_bind: int,
    comm_E2_pcs: int,
    alpha1: int,
    alpha2: int,
)
    requires
        proof1.T_bind == proof2.T_bind,
        proof1.T_pcs == proof2.T_pcs,
        proof1.z@.len() == proof2.z@.len(),
        left + proof1.z@.len() <= ck.ck@.len(),
        alpha1 % E::Scalar::modulus() != alpha2 % E::Scalar::modulus(),
        0 <= comm_E2_bind < E::Scalar::modulus(),
        0 <= comm_E2_pcs < E::Scalar::modulus(),
        sigma_accepts(ck, left, proof1, comm_E2_bind, comm_E2_pcs, alpha1),
        sigma_accepts(ck, left, proof2, comm_E2_bind, comm_E2_pcs, alpha2),
    ensures
        exists|e2: Seq<int>, r_bind: int, r_pcs: int|
            #![trigger ck.commitment(behind_zeros(left, e2), r_bind), ck.commitment(e2, r_pcs)]
            e2.len() == proof1.z@.len() && comm_E2_bind == ck.commitment(
                behind_zeros(left, e2),
                r_bind,
            ) && comm_E2_pcs == ck.commitment(e2, r_pcs),
{
    let p = E::Scalar::modulus();
    E::Scalar::lemma_modulus();
    lemma_cong_diff(p, alpha1, alpha2);
    let inv = lemma_inverse_exists(p, alpha1 - alpha2);
    let z1 = vals(proof1.z@);
    let z2 = vals(proof2.z@);
    let e2 = extracted(p, z1, z2, inv);
    let r_pcs = (proof1.z_r_pcs.val() - proof2.z_r_pcs.val()) * inv;
    let r_bind = (proof1.z_r_bind.val() - proof2.z_r_bind.val()) * inv;
    lemma_extract(
        ck,
        z1,
        proof1.z_r_pcs.val(),
        z2,
        proof2.z_r_pcs.val(),
        proof1.T_pcs.log(),
        comm_E2_pcs,
        alpha1,
        alpha2,
        inv,
    );
    let b1 = behind_zeros(left, z1);
    let b2 = behind_zeros(left, z2);
    lemma_extract(
        ck,
        b1,
        proof1.z_r_bind.val(),
        b2,
        proof2.z_r_bind.val(),
        proof1.T_bind.log(),
        comm_E2_bind,
        alpha1,
        alpha2,
        inv,
    );
    lemma_reduced(p, 0);
    assert forall|i: int| 0 <= i < b1.len() implies #[trigger] extracted(p, b1, b2, inv)[i]
        == behind_zeros(left, e2)[i] by {
        if i < left {
            assert((0 - 0) * inv == 0) by (nonlinear_arith);
        }
    }
    assert(extracted(p, b1, b2, inv) =~= behind_zeros(left, e2));
    assert(comm_E2_bind == ck.commitment(behind_zeros(left, e2), r_bind));
    assert(comm_E2_pcs == ck.commitment(e2, r_pcs));
}

/// Absorbs everything that the challenge depends on.
fn absorb_sigma<E: Engine>(
    transcript: &mut Transcript<E>,
    r_U_comm_E: &E::GE,
    comm_E1: &E::GE,
    comm_E2_bind: &E::GE,
    comm_E2_pcs: &E::GE,
    T_bind: &E::GE,
    T_pcs: &E::GE,
)
    ensures
        final(transcript)@ == sigma_absorbed::<E>(
            old(transcript)@,
            r_U_comm_E.log(),
            comm_E1.log(),
            comm_E2_bind.log(),
            comm_E2_pcs.log(),
            T_bind.log(),
            T_pcs.log(),
        ),
{
    transcript.absorb_point("r_U_comm_E", r_U_comm_E);
    transcript.absorb_point("comm_E1", comm_E1);
    transcript.absorb_point("comm_E2_bind", comm_E2_bind);
    transcript.absorb_point("comm_E2_pcs", comm_E2_pcs);
    transcript.absorb_point("sigma_T_bind", T_bind);
    transcript.absorb_point("sigma_T_pcs", T_pcs);
}

/// The mask plus the challenge times the vector.
fn masked<F: PrimeField>(rho: &Vec<F>, v: &[F], alpha: F) -> (r: Vec<F>)
    requires
        rho@.len() == v@.len(),
    ensures
        vals(r@) == Seq::new(
            v@.len(),
            |i: int| (rho@[i].val() + alpha.val() * v@[i].val()) % F::modulus(),
        ),
{
    let ghost p = F::modulus();
    let ghost all = Seq::new(
        v@.len(),
        |i: int| (rho@[i].val() + alpha.val() * v@[i].val()) % p,
    );
    let n: usize = v.len();
    let mut r: Vec<F> = Vec::new();
    let mut i: usize = 0;
    while i < n
        invariant
            i <= n,
            n == v@.len(),
            n == rho@.len(),
            p == F::modulus(),
            all.len() == n,
            forall|k: int|
                0 <= k < n ==> #[trigger] all[k] == (rho@[k].val() + alpha.val() * v@[k].val()) % p,
            vals(r@) == all.take(i as int),
            r@.len() == i,
        decreases n - i,
    {
        let ghost before = r@;
        r.push(rho[i].plus(alpha.times(v[i])));
        proof {
            F::lemma_modulus();
            let x = alpha.val() * v@[i as int].val();
            lemma_residue(p, x);
            lemma_cong_add(p, rho@[i as int].val(), x % p, rho@[i as int].val(), x);
            assert forall|k: int| 0 <= k < i + 1 implies #[trigger] vals(r@)[k] == all.take(
                i as int + 1,
            )[k] by {
                if k < i {
                    assert(vals(before)[k] == all.take(i as int)[k]);
                }
            }
            assert(vals(r@) =~= all.take(i as int + 1));
        }
        i = i + 1;
    }
    assert(all.take(n as int) =~= all);
    r
}

/// Proves that `comm_E2_bind` and `comm_E2_pcs` open to the same `E2`, with given masks.
pub fn prove_sigma_E2_equality_with<E: Engine>(
    ck: &CommitmentKey<E>,
    structure: &Structure<E>,
    E2: &[E::Scalar],
    r_E2_bind: &E::Scalar,
    r_E2_pcs: &E::Scalar,
    comm_E1: &E::GE,
    comm_E2_bind: &E::GE,
    comm_E2_pcs: &E::GE,
    r_U_comm_E: &E::GE,
    transcript: &mut Transcript<E>,
    rho: &Vec<E::Scalar>,
    sigma_bind: E::Scalar,
    sigma_pcs: E::Scalar,
) -> (r: Result<SigmaE2EqualityProof<E>, NovaError>)
    requires
        E2@.len() == structure.right,
        rho@.len() == structure.right,
        structure.left + structure.right <= ck.ck@.len(),
    ensures
        r is Err <==> exhausted(old(transcript)@),
        r is Err ==> r == Err::<SigmaE2EqualityProof<E>, NovaError>(
            NovaError::InternalTranscriptError,
        ),
        r is Ok ==> {
            let t = sigma_absorbed::<E>(
                old(transcript)@,
                r_U_comm_E.log(),
                comm_E1.log(),
                comm_E2_bind.log(),
                comm_E2_pcs.log(),
                r->Ok_0.T_bind.log(),
                r->Ok_0.T_pcs.log(),
            );
            &&& sigma_made_from(
                r->Ok_0,
                *ck,
                structure.left as nat,
                vals(E2@),
                r_E2_bind.val(),
                r_E2_pcs.val(),
                vals(rho@),
                sigma_bind.val(),
                sigma_pcs.val(),
                sigma_alpha::<E>(t),
            )
            &&& final(transcript)@ == sigma_squeezed(t)
        },
{
    let rho_padded = pad_front(structure.left, rho);
    let T_bind = ck.commit(&rho_padded, &sigma_bind);
    let T_pcs = ck.commit(rho, &sigma_pcs);
    absorb_sigma(
        transcript,
        r_U_comm_E,
        comm_E1,
        comm_E2_bind,
        comm_E2_pcs,
        &T_bind,
        &T_pcs,
    );
    let alpha = transcript.squeeze("sigma_E2_equality_alpha")?;
    let z = masked(rho, E2, alpha);
    let z_r_bind = sigma_bind.plus(alpha.times(*r_E2_bind));
    let z_r_pcs = sigma_pcs.plus(alpha.times(*r_E2_pcs));
    proof {
        let p = E::Scalar::modulus();
        E::Scalar::lemma_modulus();
        let x = alpha.val() * r_E2_bind.val();
        let y = alpha.val() * r_E2_pcs.val();
        lemma_residue(p, x);
        lemma_residue(p, y);
        lemma_cong_add(p, sigma_bind.val(), x % p, sigma_bind.val(), x);
        lemma_cong_add(p, sigma_pcs.val(), y % p, sigma_pcs.val(), y);
        assert(vals(z@) =~= Seq::new(
            vals(E2@).len(),
            |i: int| (vals(rho@)[i] + alpha.val() * vals(E2@)[i]) % p,
        ));
    }
    Ok(SigmaE2EqualityProof { T_bind, T_pcs, z, z_r_bind, z_r_pcs })
}

/// Proves that `comm_E2_bind` and `comm_E2_pcs` open to the same `E2`, with masks from the
/// operating system. Where the commitments do open to it, the proof is accepted.
pub fn prove_sigma_E2_equality<E: Engine>(
    ck: &CommitmentKey<E>,
    structure: &Structure<E>,
    E2: &[E::Scalar],
    r_E2_bind: &E::Scalar,
    r_E2_pcs: &E::Scalar,
    comm_E1: &E::GE,
    comm_E2_bind: &E::GE,
    comm_E2_pcs: &E::GE,
    r_U_comm_E: &E::GE,
    transcript: &mut Transcript<E>,
) -> (r: Result<SigmaE2EqualityProof<E>, NovaError>)
    requires
        E2@.len() == structure.right,
        structure.left + structure.right <= ck.ck@.len(),
    ensures
        exhausted(old(transcript)@) ==> r is Err,
        r is Err ==> r->Err_0 == NovaError::InternalTranscriptError && exhausted(old(transcript)@)
            || r->Err_0 == NovaError::RandomnessUnavailable,
        r is Ok ==> {
            let t = sigma_absorbed::<E>(
                old(transcript)@,
                r_U_comm_E.log(),
                comm_E1.log(),
                comm_E2_bind.log(),
                comm_E2_pcs.log(),
                r->Ok_0.T_bind.log(),
                r->Ok_0.T_pcs.log(),
            );
            &&& exists|rho: Seq<int>, sigma_bind: int, sigma_pcs: int| #[trigger]
                sigma_made_from(
                    r->Ok_0,
                    *ck,
                    structure.left as nat,
                    vals(E2@),
                    r_E2_bind.val(),
                    r_E2_pcs.val(),
                    rho,
                    sigma_bind,
                    sigma_pcs,
                    sigma_alpha::<E>(t),
                )
            &&& final(transcript)@ == sigma_squeezed(t)
            &&& comm_E2_bind.log() == ck.commitment(
                behind_zeros(structure.left as nat, vals(E2@)),
                r_E2_bind.val(),
            ) && comm_E2_pcs.log() == ck.commitment(vals(E2@), r_E2_pcs.val())
                ==> sigma_rejection(
                *ck,
                *structure,
                comm_E1.log(),
                comm_E2_bind.log(),
                comm_E2_pcs.log(),
                r_U_comm_E.log(),
                r->Ok_0,
                old(transcript)@,
            ) is None
        },
{
    let rho = random_scalars::<E::Scalar>(structure.right)?;
    let sigma_bind = random_scalar::<E::Scalar>()?;
    let sigma_pcs = random_scalar::<E::Scalar>()?;
    let r = prove_sigma_E2_equality_with(
        ck,
        structure,
        E2,
        r_E2_bind,
        r_E2_pcs,
        comm_E1,
        comm_E2_bind,
        comm_E2_pcs,
        r_U_comm_E,
        transcript,
        &rho,
        sigma_bind,
        sigma_pcs,
    );
    proof {
        if r is Ok {
            let proof = r->Ok_0;
            let t = sigma_absorbed::<E>(
                old(transcript)@,
                r_U_comm_E.log(),
                comm_E1.log(),
                comm_E2_bind.log(),
                comm_E2_pcs.log(),
                proof.T_bind.log(),
                proof.T_pcs.log(),
            );
            assert(vals(proof.z@).len() == E2@.len());
            law_sigma_complete(
                *ck,
                structure.left as nat,
                proof,
                vals(E2@),
                r_E2_bind.val(),
                r_E2_pcs.val(),
                vals(rho@),
                sigma_bind.val(),
                sigma_pcs.val(),
                sigma_alpha::<E>(t),
            );
        }
    }
    r
}

/// The text of the error for an answer of the wrong length.
fn length_error(z: usize, right: usize) -> (e: NovaError)
    ensures
        rejected_as(e, Rejection::Reason(length_reason(z as nat, right as nat))),
{
    let mut s =
        "Sigma E2 equality-of-opening rejected at structural check: proof.z.len() (".to_owned();
    append_number(&mut s, z);
    s.append(") != structure.right (");
    append_number(&mut s, right);
    s.append(")");
    NovaError::ProofVerifyError { reason: s }
}

/// Verifies that `comm_E2_bind` and `comm_E2_pcs` open to the same vector.
pub fn verify_sigma_E2_equality<E: Engine>(
    ck: &CommitmentKey<E>,
    structure: &Structure<E>,
    comm_E1: &E::GE,
    comm_E2_bind: &E::GE,
    comm_E2_pcs: &E::GE,
    r_U_comm_E: &E::GE,
    proof: &SigmaE2EqualityProof<E>,
    transcript: &mut Transcript<E>,
) -> (r: Result<(), NovaError>)
    requires
        structure.left + structure.right <= ck.ck@.len(),
    ensures
        verdict(
            r,
            sigma_rejection(
                *ck,
                *structure,
                comm_E1.log(),
                comm_E2_bind.log(),
                comm_E2_pcs.log(),
                r_U_comm_E.log(),
                *proof,
                old(transcript)@,
            ),
        ),
        final(transcript)@ == {
            let t = sigma_absorbed::<E>(
                old(transcript)@,
                r_U_comm_E.log(),
                comm_E1.log(),
                comm_E2_bind.log(),
                comm_E2_pcs.log(),
                proof.T_bind.log(),
                proof.T_pcs.log(),
            );
            if proof.z@.len() != structure.right {
                old(transcript)@
            } else if exhausted(old(transcript)@) {
                t
            } else {
                sigma_squeezed(t)
            }
        },
{
    if proof.z.len() != structure.right {
        return Err(length_error(proof.z.len(), structure.right));
    }
    absorb_sigma(
        transcript,
        r_U_comm_E,
        comm_E1,
        comm_E2_bind,
        comm_E2_pcs,
        &proof.T_bind,
        &proof.T_pcs,
    );
    let alpha = transcript.squeeze("sigma_E2_equality_alpha")?;
    let z_padded = pad_front(structure.left, &proof.z);
    let lhs_bind = ck.commit(&z_padded, &proof.z_r_bind);
    let rhs_bind = proof.T_bind.plus(comm_E2_bind.scale(alpha));
    if !lhs_bind.same(rhs_bind) {
        return Err(rejection(BIND_SIDE));
    }
    let lhs_pcs = ck.commit(&proof.z, &proof.z_r_pcs);
    let rhs_pcs = proof.T_pcs.plus(comm_E2_pcs.scale(alpha));
    if !lhs_pcs.same(rhs_pcs) {
        return Err(rejection(PCS_SIDE));
    }
    Ok(())
}

} // verus!
