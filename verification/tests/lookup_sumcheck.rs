//! One round of the lookup argument.
#![allow(non_snake_case)]

use neutron::commitment::CommitmentKey;
use neutron::frontend::{AllocatedNum, ConstraintSystem};
use neutron::lookup_sumcheck::{
    batch_invert_plus_r, lookup_running_claims_from, LookupSumcheckInstance,
};
use neutron::poly::UniPoly;
use neutron::powers::{power_of, powers_of};
use neutron::public_params::random_key;
use neutron::random::SeededRng;
use neutron::reference::{Exponent, ReferenceEngine};
use neutron::relation::FoldedInstance;
use neutron::step_circuit::{NonTrivialCircuit, StepCircuit};
use neutron::structure::{R1CSShape, Structure};
use neutron::{NovaError, PrimeField, M31};
use rand_chacha::rand_core::SeedableRng;
use rand_chacha::ChaCha20Rng;

type E = ReferenceEngine<M31>;

fn seeded(seed: u64) -> SeededRng {
    SeededRng::new(ChaCha20Rng::seed_from_u64(seed).get_seed())
}

fn n(x: u64) -> M31 {
    M31::from_u64(x)
}

/// A random table, queries into it, and how often each entry is asked for.
fn satisfying_fixture(
    rng: &mut SeededRng,
    table_log2: usize,
    n_queries_log2: usize,
) -> (Vec<M31>, Vec<M31>, Vec<M31>) {
    let table_size = 1usize << table_log2;
    let n_queries = 1usize << n_queries_log2;
    let table: Vec<M31> = rng.scalars(table_size);
    let mut multiplicities = vec![M31::zero(); table_size];
    let mut witness = Vec::with_capacity(n_queries);
    for _ in 0..n_queries {
        let j = (rng.draw() as usize) % table_size;
        witness.push(table[j]);
        multiplicities[j] = multiplicities[j].plus(M31::one());
    }
    (witness, table, multiplicities)
}

fn zero_split_eq(ell: usize) -> (Vec<M31>, Vec<M31>) {
    (vec![M31::zero(); 1 << ell.div_ceil(2)], vec![M31::zero(); 1 << (ell / 2)])
}

fn split_eq(rng: &mut SeededRng, ell: usize) -> (Vec<M31>, Vec<M31>) {
    let tau: M31 = rng.scalar();
    let len_left = 1usize << ell.div_ceil(2);
    let len_right = 1usize << (ell / 2);
    (powers_of(tau, len_left), powers_of(power_of(tau, len_left), len_right))
}

fn key(size: usize) -> CommitmentKey<E> {
    random_key(size).expect("the operating system provides random numbers")
}

type Round = (LookupSumcheckInstance<E>, Exponent<M31>, Exponent<M31>);

/// A round that starts from nothing: everything on the running side is zero.
fn first_round(
    rng: &mut SeededRng,
    ell: usize,
) -> (LookupSumcheckInstance<E>, M31, (Vec<M31>, Vec<M31>, Vec<M31>)) {
    let (witness, table, multiplicities) = satisfying_fixture(rng, ell, ell);
    let (eq_w1_left, eq_w1_right) = zero_split_eq(ell);
    let (eq_t1_left, eq_t1_right) = zero_split_eq(ell);
    let (eq_w2_left, eq_w2_right) = split_eq(rng, ell);
    let (eq_t2_left, eq_t2_right) = split_eq(rng, ell);
    let r: M31 = rng.scalar();
    let ck = key(witness.len().max(table.len()));
    let zero_w = vec![M31::zero(); witness.len()];
    let zero_t = vec![M31::zero(); table.len()];
    let made: Result<Round, NovaError> = LookupSumcheckInstance::<E>::new(
        &ck,
        &zero_w,
        &zero_w,
        &zero_t,
        &zero_t,
        &zero_t,
        eq_w1_left,
        eq_w1_right,
        eq_t1_left,
        eq_t1_right,
        &witness,
        &table,
        &multiplicities,
        eq_w2_left,
        eq_w2_right,
        eq_t2_left,
        eq_t2_right,
        r,
    );
    let (inst, comm_inv_w2, comm_inv_t2) = made.expect("no entry is the opposite of the challenge");
    assert_eq!(comm_inv_w2, ck.commit(&inst.inv_w2_poly.Z, &M31::zero()));
    assert_eq!(comm_inv_t2, ck.commit(&inst.inv_t2_poly.Z, &M31::zero()));
    (inst, r, (witness, table, multiplicities))
}

/// The value at `p` of the line that is `v1` at zero and `v2` at one.
fn bf(v1: M31, v2: M31, p: M31) -> M31 {
    M31::one().minus(p).times(v1).plus(p.times(v2))
}

fn eq(a: M31, b: M31) -> M31 {
    M31::one().minus(a).times(M31::one().minus(b)).plus(a.times(b))
}

/// What the round polynomial has to be at `p`, term by term.
fn naive(inst: &LookupSumcheckInstance<E>, r: M31, rho: M31, p: M31) -> M31 {
    let left_w = inst.eq_w1_left.len();
    let mut sum_a = M31::zero();
    for i in 0..inst.eq_w1_right.len() {
        let eq_r = bf(inst.eq_w1_right[i], inst.eq_w2_right[i], p);
        for j in 0..left_w {
            let k = i * left_w + j;
            let eq_l = bf(inst.eq_w1_left[j], inst.eq_w2_left[j], p);
            let inv_w = bf(inst.inv_w1_poly.Z[k], inst.inv_w2_poly.Z[k], p);
            let w_plus_r = bf(inst.w1_poly.Z[k].plus(r), inst.w2_poly.Z[k].plus(r), p);
            sum_a = sum_a.plus(eq_r.times(eq_l).times(inv_w.times(w_plus_r).minus(M31::one())));
        }
    }
    let left_t = inst.eq_t1_left.len();
    let mut sum_b = M31::zero();
    for i in 0..inst.eq_t1_right.len() {
        let eq_r = bf(inst.eq_t1_right[i], inst.eq_t2_right[i], p);
        for j in 0..left_t {
            let k = i * left_t + j;
            let eq_l = bf(inst.eq_t1_left[j], inst.eq_t2_left[j], p);
            let inv_t = bf(inst.inv_t1_poly.Z[k], inst.inv_t2_poly.Z[k], p);
            let t_plus_r = bf(inst.t1_poly.Z[k].plus(r), inst.t2_poly.Z[k].plus(r), p);
            let ts = bf(inst.ts1_poly.Z[k], inst.ts2_poly.Z[k], p);
            sum_b = sum_b.plus(eq_r.times(eq_l).times(inv_t.times(t_plus_r).minus(ts)));
        }
    }
    let mut sum_c = M31::zero();
    for k in 0..inst.inv_w1_poly.Z.len() {
        sum_c = sum_c.plus(bf(inst.inv_w1_poly.Z[k], inst.inv_w2_poly.Z[k], p));
    }
    for k in 0..inst.inv_t1_poly.Z.len() {
        sum_c = sum_c.minus(bf(inst.inv_t1_poly.Z[k], inst.inv_t2_poly.Z[k], p));
    }
    eq(rho, p).times(sum_a.plus(sum_b).plus(sum_c))
}

#[test]
fn from_evals_interpolates_six_points() {
    let evals: Vec<M31> = (0..6u64).map(|i| n(i * i + 3 * i + 7)).collect();
    let poly = UniPoly::<M31>::from_evals(&evals);
    for (i, e) in evals.iter().enumerate() {
        assert_eq!(poly.evaluate(&n(i as u64)), *e);
    }
    assert_eq!(poly.eval_at_zero(), evals[0]);
    assert_eq!(poly.eval_at_one(), evals[1]);
}

#[test]
fn prove_step_satisfying_witness_produces_zero_polynomial() {
    let mut rng = seeded(0xC1BE_F1A0);
    let (inst, _, _) = first_round(&mut rng, 4);
    let rho: M31 = rng.scalar();
    let t_lookup_running = M31::zero();
    let poly_lookup = inst.prove_step(&rho, &t_lookup_running);
    assert_eq!(
        poly_lookup.eval_at_zero().plus(poly_lookup.eval_at_one()),
        t_lookup_running,
        "C-binding failed"
    );
    assert_eq!(poly_lookup.eval_at_zero(), M31::zero(), "eval@0 must be zero at outer base");
    assert_eq!(
        poly_lookup.eval_at_one(),
        M31::zero(),
        "eval@1 must be zero at outer base (T_running = 0, eval@0 = 0)"
    );
    let r_b: M31 = rng.scalar();
    let result =
        LookupSumcheckInstance::<E>::verify_step(&rho, &r_b, &poly_lookup, &t_lookup_running);
    assert!(result.is_ok(), "verify_step must accept satisfying proof");
}

#[test]
fn prove_step_lagrange_interpolation_check() {
    let mut rng = seeded(0xC1BE_A1C0);
    let (inst, r, _) = first_round(&mut rng, 2);
    let rho: M31 = rng.scalar();
    let t_running = M31::zero();
    let poly = inst.prove_step(&rho, &t_running);
    assert_eq!(poly.eval_at_zero().plus(poly.eval_at_one()), t_running, "C-binding must hold");
    assert_eq!(eq(rho, M31::zero()), M31::one().minus(rho));
    assert_eq!(
        poly.eval_at_zero(),
        naive(&inst, r, rho, M31::zero()),
        "eval@0 must match manual computation"
    );
    assert_eq!(eq(rho, n(2)), n(3).times(rho).minus(M31::one()));
    assert_eq!(
        poly.evaluate(&n(2)),
        naive(&inst, r, rho, n(2)),
        "eval@2 must match manual computation"
    );
}

#[test]
fn prove_step_degree_is_at_most_five() {
    let mut rng = seeded(0xC1BE_D5A0);
    let (inst, _, _) = first_round(&mut rng, 3);
    let rho: M31 = rng.scalar();
    let poly = inst.prove_step(&rho, &M31::zero());
    assert!(
        poly.coeffs().len() <= 6,
        "polynomial degree must be at most 5, got {} coefficients",
        poly.coeffs().len()
    );
    assert_eq!(
        poly.eval_at_zero().plus(poly.eval_at_one()),
        M31::zero(),
        "C-binding at outer base"
    );
}

#[test]
fn verify_step_round_trips_on_satisfying_witness() {
    let mut rng = seeded(0xC1BE_7E12);
    let (inst, _, _) = first_round(&mut rng, 4);
    let rho: M31 = rng.scalar();
    let t_lookup_running = M31::zero();
    let poly_lookup = inst.prove_step(&rho, &t_lookup_running);
    let r_b: M31 = rng.scalar();
    let t_lookup_out =
        LookupSumcheckInstance::<E>::verify_step(&rho, &r_b, &poly_lookup, &t_lookup_running)
            .expect("verify_step must accept satisfying witness");
    let expected = poly_lookup.evaluate(&r_b).times(eq(rho, r_b).invert().unwrap());
    assert_eq!(t_lookup_out, expected);
}

#[test]
fn verify_step_rejects_when_c_binding_violated() {
    let mut rng = seeded(0xC1BE_7E73);
    let (inst, _, _) = first_round(&mut rng, 4);
    let rho: M31 = rng.scalar();
    let poly_lookup = inst.prove_step(&rho, &M31::zero());
    let r_b: M31 = rng.scalar();
    let res = LookupSumcheckInstance::<E>::verify_step(&rho, &r_b, &poly_lookup, &M31::one());
    assert!(matches!(res, Err(NovaError::InvalidSumcheckProof)));
}

#[test]
fn lookup_running_claims_from_outer_base_is_zero() {
    let num_cons: usize = 16;
    let circuit = NonTrivialCircuit::<M31>::new(num_cons);
    let mut cs = ConstraintSystem::<M31>::new_shape();
    let before = vec![AllocatedNum::alloc_value(&mut cs, M31::zero())];
    let after = circuit.synthesize(&mut cs, &before).expect("the circuit can be laid out");
    before[0].inputize(&mut cs);
    after[0].inputize(&mut cs);
    let m = cs.to_matrices().expect("the columns can be counted");
    let shape = R1CSShape::<E>::new(m.num_cons, m.num_vars, m.num_io, m.A, m.B, m.C)
        .expect("the entries lie within the dimensions");
    let s = Structure::new(&shape);
    let u1 = FoldedInstance::<E>::default(s.S.num_io);
    assert!(u1.T_lookup.is_none());
    assert_eq!(lookup_running_claims_from::<E>(&u1), M31::zero());
}

#[test]
fn prove_step_differential_against_naive() {
    let mut rng = seeded(0xC1BE_D1FF);
    let (inst, r, _) = first_round(&mut rng, 3);
    let rho: M31 = rng.scalar();
    let poly = inst.prove_step(&rho, &M31::zero());
    for _ in 0..10 {
        let p: M31 = rng.scalar();
        assert_eq!(
            poly.evaluate(&p),
            naive(&inst, r, rho, p),
            "polynomial evaluation at random point must match naive computation"
        );
    }
}

#[test]
fn prove_step_both_instances_nontrivial() {
    let mut rng = seeded(0xC1BE_B0F1);
    let (witness_1, table_1, multiplicities_1) = satisfying_fixture(&mut rng, 3, 3);
    let (witness_2, table_2, multiplicities_2) = satisfying_fixture(&mut rng, 3, 3);
    let ell = 3;
    let (eq_w1_left, eq_w1_right) = split_eq(&mut rng, ell);
    let (eq_t1_left, eq_t1_right) = split_eq(&mut rng, ell);
    let (eq_w2_left, eq_w2_right) = split_eq(&mut rng, ell);
    let (eq_t2_left, eq_t2_right) = split_eq(&mut rng, ell);
    let r: M31 = rng.scalar();
    let ck = key(witness_1.len().max(table_1.len()));

    let inv_w_1 = batch_invert_plus_r(&witness_1, &r).unwrap();
    let inv_t_1_raw = batch_invert_plus_r(&table_1, &r).unwrap();
    let inv_t_1: Vec<M31> =
        inv_t_1_raw.iter().zip(multiplicities_1.iter()).map(|(inv, ts)| inv.times(*ts)).collect();

    let made: Result<Round, NovaError> = LookupSumcheckInstance::<E>::new(
        &ck,
        &witness_1,
        &inv_w_1,
        &table_1,
        &multiplicities_1,
        &inv_t_1,
        eq_w1_left,
        eq_w1_right,
        eq_t1_left,
        eq_t1_right,
        &witness_2,
        &table_2,
        &multiplicities_2,
        eq_w2_left,
        eq_w2_right,
        eq_t2_left,
        eq_t2_right,
        r,
    );
    let (inst, _, _) = made.unwrap();
    let rho: M31 = rng.scalar();
    let t_running = M31::zero();
    let poly = inst.prove_step(&rho, &t_running);
    assert_eq!(poly.eval_at_zero().plus(poly.eval_at_one()), t_running, "C-binding");
    for _ in 0..5 {
        let p: M31 = rng.scalar();
        assert_eq!(
            poly.evaluate(&p),
            naive(&inst, r, rho, p),
            "polynomial evaluation at random point must match naive computation (both instances nontrivial)"
        );
    }
    let r_b: M31 = rng.scalar();
    let result = LookupSumcheckInstance::<E>::verify_step(&rho, &r_b, &poly, &t_running);
    assert!(result.is_ok(), "verify_step must accept");
}

#[test]
fn inverses_of_shifted_values() {
    let inv = batch_invert_plus_r(&[n(1), n(2), n(5)], &n(1)).unwrap();
    // 2 * 2^30 = 2^31, 3 * 1431655765 = 2 * (2^31 - 1) + 1, 6 * 357913941 = 2^31 - 2.
    assert_eq!(inv, vec![n(1073741824), n(1431655765), n(2147483646 - 357913941 + 1)]);
    for (x, i) in [n(1), n(2), n(5)].iter().zip(inv.iter()) {
        assert_eq!(x.plus(n(1)).times(*i), M31::one());
    }
    assert_eq!(batch_invert_plus_r::<M31>(&[], &n(1)), Ok(vec![]));
}

#[test]
fn a_value_opposite_to_the_shift_has_no_inverse() {
    let res = batch_invert_plus_r(&[n(3), n(2147483646)], &n(1));
    assert_eq!(res, Err(NovaError::InvalidInversion));
}

#[test]
fn the_claim_at_the_challenge_is_what_the_folded_sides_claim() {
    let mut rng = seeded(0xC1BE_0001);
    let (inst, r, _) = first_round(&mut rng, 3);
    let rho: M31 = rng.scalar();
    let poly = inst.prove_step(&rho, &M31::zero());
    let r_b: M31 = rng.scalar();
    let out =
        LookupSumcheckInstance::<E>::verify_step(&rho, &r_b, &poly, &M31::zero()).unwrap();
    // Dividing by eq(rho, r_b) leaves the sum of the three claims at r_b.
    assert_eq!(out.times(eq(rho, r_b)), naive(&inst, r, rho, r_b));
}
