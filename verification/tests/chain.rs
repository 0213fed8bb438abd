//! Chains of folds and their envelopes.
#![allow(non_snake_case)]

use neutron::circuit::relation::AllocatedFoldedInstance;
use neutron::columns::{LookupShape, LookupTableHandle, MultiColumnLookupTable};
use neutron::commitment::{CommitmentKey, DerandKey};
use neutron::compressed_snark::chain::{close_tables, TableDraw};
use neutron::compressed_snark::closing::{ClosingArgument, OpeningArgument};
use neutron::compressed_snark::self_checked::SelfChecked;
use neutron::compressed_snark::{CompressedSNARK, VerifierKey};
use neutron::engine::{Group, RO2Circuit, NUM_HASH_BITS, RO2};
use neutron::frontend::ConstraintSystem;
use neutron::idle::IdentityStepCircuit;
use neutron::point::absorb_point;
use neutron::powers::powers_of;
use neutron::public_params::{random_key, PublicParams};
use neutron::recursive::RecursiveSNARK;
use neutron::reference::{Exponent, ReferenceEngine};
use neutron::relation::FoldedInstance;
use neutron::state::hash_of_state;
use neutron::step_circuit::TrivialCircuit;
use neutron::{NovaError, PrimeField, M31};
use rand_chacha::rand_core::SeedableRng;
use rand_chacha::ChaCha20Rng;

type GH75E = ReferenceEngine<M31>;
type GH75EE = OpeningArgument<GH75E>;
type Point = Exponent<M31>;

const GH75_TABLE_SIZE: usize = 4;
const GH75_TABLE_LOG2: usize = 2;
const GH75_K: usize = 1;
const GH75_N_STEPS: usize = 4;

fn gh75_lookup_shape() -> LookupShape<GH75E> {
    let identity: Vec<M31> = (0..GH75_TABLE_SIZE).map(|i| M31::from_u64(i as u64)).collect();
    let identity_ck: CommitmentKey<GH75E> =
        random_key(GH75_TABLE_SIZE).expect("a commitment key of the size of the table");
    let identity_comm = identity_ck.commit(&identity, &M31::zero());
    LookupShape::<GH75E> {
        tables: vec![LookupTableHandle {
            table_id: 0,
            size: GH75_TABLE_SIZE,
            commitment: identity_comm,
        }],
        multi_column_tables: vec![MultiColumnLookupTable {
            table_id: 0,
            size: GH75_TABLE_SIZE,
            columns: vec![],
            value_commitments: vec![],
        }],
        num_addr_columns: 1,
        num_witness_columns: 1,
        witness_ell_cached: GH75_TABLE_LOG2,
    }
}

type Params = PublicParams<GH75E, IdentityStepCircuit>;
type Chain = RecursiveSNARK<GH75E, IdentityStepCircuit>;

fn gh75_setup(circuit: &IdentityStepCircuit) -> Params {
    Params::setup(circuit, 0, vec![M31::zero()], GH75_K, 1, Some(gh75_lookup_shape()))
        .expect("pp setup must succeed")
}

/// Parameters whose registry holds their own digest.
fn gh75_registered(circuit: &IdentityStepCircuit) -> Params {
    let mut pp = gh75_setup(circuit);
    let d = pp.digest();
    pp.shape_registry = vec![d];
    assert_eq!(pp.digest(), d, "the digest does not depend on the registry");
    assert_eq!(pp.shape_registry, vec![d]);
    pp
}

#[allow(clippy::type_complexity)]
fn gh75_build_honest_fixture() -> (
    Params,
    VerifierKey<GH75E, GH75EE>,
    Chain,
    CompressedSNARK<GH75E, GH75EE>,
    Vec<M31>,
    Vec<M31>,
) {
    let circuit = IdentityStepCircuit::new();
    let pp = gh75_registered(&circuit);
    let z0 = vec![M31::zero()];
    let mut recursive_snark =
        Chain::new(&pp, &circuit, &z0).expect("RecursiveSNARK::new must succeed");
    for _ in 0..GH75_N_STEPS {
        recursive_snark
            .prove_step_with_lookup_fold(&pp, &circuit)
            .expect("prove_step_with_lookup_fold must succeed on the honest IVC trace");
    }
    let zn = recursive_snark
        .verify(&pp, GH75_N_STEPS, &z0)
        .expect("RecursiveSNARK::verify must succeed on the honest IVC trace");
    let (pk, vk) = CompressedSNARK::<GH75E, GH75EE>::setup(&pp)
        .expect("CompressedSNARK::setup must succeed");
    let envelope =
        CompressedSNARK::<GH75E, GH75EE>::prove_with_lookup_fold(&pp, &pk, &recursive_snark)
            .expect("CompressedSNARK::prove_with_lookup_fold must succeed");
    (pp, vk, recursive_snark, envelope, z0, zn)
}

#[test]
fn m_gh7_5_b_envelope_verify_ivc_trace_round_trip_byte_equivalence() {
    let (_pp, vk, recursive_snark, envelope, z0, zn) = gh75_build_honest_fixture();
    let zn_verified = envelope
        .verify(&vk, GH75_N_STEPS, &z0, &zn)
        .expect("envelope.verify must succeed on the honest IVC trace");
    assert_eq!(zn, zn_verified, "envelope.verify must return self.zn on success");

    let mut ro_rs = RO2::<GH75E>::new();
    recursive_snark.r_U.absorb_in_ro2(&mut ro_rs);
    let squeeze_rs = ro_rs.squeeze(NUM_HASH_BITS);
    let mut ro_env = RO2::<GH75E>::new();
    envelope
        .r_U_snapshot
        .as_ref()
        .expect("r_U_snapshot must be Some(..) for the IVC-trace round-trip path")
        .absorb_in_ro2(&mut ro_env);
    let squeeze_env = ro_env.squeeze(NUM_HASH_BITS);
    assert_eq!(squeeze_rs, squeeze_env, "the snapshot is hashed as the folded instance is");

    assert_eq!(
        envelope.i_snapshot,
        Some(recursive_snark.i),
        "i_snapshot must be byte-equal to recursive_snark.i"
    );
    assert_eq!(
        envelope.z0_snapshot.as_deref(),
        Some(recursive_snark.z0.as_slice()),
        "z0_snapshot must be byte-equal to recursive_snark.z0"
    );
    assert_eq!(
        envelope.ri_snapshot,
        Some(recursive_snark.ri),
        "ri_snapshot must be byte-equal to recursive_snark.ri"
    );
    assert_eq!(
        envelope.l_u_X0_snapshot,
        Some(recursive_snark.l_u.X[0]),
        "l_u_X0_snapshot must be byte-equal to recursive_snark.l_u.X[0]"
    );
}

#[test]
fn m_gh7_5_b_corrupted_envelope_per_table_comm_L_rejects() {
    let (pp, vk, _recursive_snark, mut envelope, z0, zn) = gh75_build_honest_fixture();
    let alt = pp.ck.commit(&[M31::from_u64(0xBAD)], &M31::zero());
    assert_ne!(
        envelope.per_table_comm_L[0], alt,
        "alt commitment must be distinct from honest envelope.per_table_comm_L[0]"
    );
    envelope.per_table_comm_L[0] = alt;
    let result = envelope.verify(&vk, GH75_N_STEPS, &z0, &zn);
    let err = result.expect_err("verify MUST reject envelope with corrupted per_table_comm_L[0]");
    let msg = format!("{:?}", err);
    assert!(
        msg.contains("comm_L commitment-equality mismatch") || msg.contains("per-table comm_L"),
        "expected off-FS comm_L mismatch error, got: {}",
        msg
    );
}

#[test]
fn m_gh7_5_b_corrupted_envelope_per_table_comm_ts_rejects() {
    let (pp, vk, _recursive_snark, mut envelope, z0, zn) = gh75_build_honest_fixture();
    let alt = pp.ck.commit(&[M31::from_u64(0xBAD2)], &M31::zero());
    assert_ne!(
        envelope.per_table_comm_ts[0], alt,
        "alt commitment must be distinct from honest envelope.per_table_comm_ts[0]"
    );
    envelope.per_table_comm_ts[0] = alt;
    let result = envelope.verify(&vk, GH75_N_STEPS, &z0, &zn);
    let err = result.expect_err("verify MUST reject envelope with corrupted per_table_comm_ts[0]");
    let msg = format!("{:?}", err);
    assert!(
        msg.contains("comm_ts commitment-equality mismatch") || msg.contains("per-table comm_ts"),
        "expected off-FS comm_ts mismatch error, got: {}",
        msg
    );
}

#[test]
fn m_gh7_5_b_corrupted_snapshot_r_U_comm_L_rejects() {
    let (pp, vk, _recursive_snark, envelope, z0, zn) = gh75_build_honest_fixture();
    let alt = pp.ck.commit(&[M31::from_u64(0xBAD3)], &M31::zero());
    let mut envelope_mut = envelope;
    {
        let r_U_snap = envelope_mut
            .r_U_snapshot
            .as_mut()
            .expect("r_U_snapshot must be Some(..) for IVC-trace round-trip path");
        let comm_L_vec =
            r_U_snap.comm_L.as_mut().expect("r_U_snapshot.comm_L must be Some(..) at k>0");
        assert_ne!(
            comm_L_vec[0], alt,
            "alt commitment must be distinct from honest r_U_snapshot.comm_L[0]"
        );
        comm_L_vec[0] = alt;
    }
    let result = envelope_mut.verify(&vk, GH75_N_STEPS, &z0, &zn);
    let err =
        result.expect_err("verify MUST reject envelope with corrupted r_U_snapshot.comm_L[0]");
    let msg = format!("{:?}", err);
    assert!(
        msg.contains("IVC public-input hash reconstruction mismatch")
            || msg.contains("comm_L commitment-equality mismatch")
            || msg.contains("per-table comm_L"),
        "expected IVC-hash mismatch OR comm_L mismatch, got: {}",
        msg
    );
}

#[test]
fn m_gh7_5_3_build_per_table_synthetic_data_closes_by_construction_1000_iter() {
    let circuit = IdentityStepCircuit::new();
    let pp = gh75_registered(&circuit);
    let (pk, _vk) = CompressedSNARK::<GH75E, GH75EE>::setup(&pp)
        .expect("CompressedSNARK::setup must succeed");
    let z0 = vec![M31::zero()];
    for iter in 0..1000 {
        let mut recursive_snark = Chain::new(&pp, &circuit, &z0)
            .expect("RecursiveSNARK::new must succeed in 1000-iter close");
        for step in 0..2 {
            recursive_snark.prove_step_with_lookup_fold(&pp, &circuit).unwrap_or_else(|e| {
                panic!("prove_step_with_lookup_fold failed at iter={iter} step={step}: {e:?}")
            });
        }
        let envelope =
            CompressedSNARK::<GH75E, GH75EE>::prove_with_lookup_fold(&pp, &pk, &recursive_snark)
                .unwrap_or_else(|e| panic!("prove_with_lookup_fold failed at iter={iter}: {e:?}"));
        let r_U_comm_L = recursive_snark
            .r_U
            .comm_L
            .as_ref()
            .unwrap_or_else(|| panic!("r_U.comm_L must be Some(..) at iter={iter}"));
        let r_U_comm_ts = recursive_snark
            .r_U
            .comm_ts
            .as_ref()
            .unwrap_or_else(|| panic!("r_U.comm_ts must be Some(..) at iter={iter}"));
        assert_eq!(r_U_comm_L.len(), GH75_K, "r_U.comm_L cardinality at iter={iter}");
        assert_eq!(r_U_comm_ts.len(), GH75_K, "r_U.comm_ts cardinality at iter={iter}");
        for j in 0..GH75_K {
            assert_eq!(
                envelope.per_table_comm_L[j], r_U_comm_L[j],
                "iter={iter} table={j} comm_L mismatch"
            );
            assert_eq!(
                envelope.per_table_comm_ts[j], r_U_comm_ts[j],
                "iter={iter} table={j} comm_ts mismatch"
            );
        }
    }
}

#[test]
fn m_gh7_5_falsifier_g_obstruction_record_two_pass_ck_non_determinism() {
    let circuit = IdentityStepCircuit::new();
    let pp1 = gh75_setup(&circuit);
    let pp2 = gh75_setup(&circuit);
    assert_ne!(
        pp1.digest(),
        pp2.digest(),
        "two calls of setup draw different commitment keys, so the digests differ"
    );

    let circuit2 = IdentityStepCircuit::new();
    let mut pp = gh75_setup(&circuit2);
    let d_before = pp.digest();
    pp.shape_registry = vec![d_before];
    let d_after = pp.digest();
    assert_eq!(d_before, d_after, "the digest does not depend on the registry");
}

#[allow(clippy::type_complexity)]
fn gh75_experiment_run_ivc_verify(
    n_steps: usize,
) -> (Result<Vec<M31>, NovaError>, Params, Chain, Vec<M31>) {
    let circuit = IdentityStepCircuit::new();
    let pp = gh75_registered(&circuit);
    let z0 = vec![M31::zero()];
    let mut recursive_snark =
        Chain::new(&pp, &circuit, &z0).expect("RecursiveSNARK::new must succeed");
    for step in 0..n_steps {
        recursive_snark.prove_step_with_lookup_fold(&pp, &circuit).unwrap_or_else(|e| {
            panic!("prove_step_with_lookup_fold MUST succeed; failed at step={step}: {e:?}")
        });
    }
    let result = recursive_snark.verify(&pp, n_steps, &z0);
    (result, pp, recursive_snark, z0)
}

#[test]
fn m_gh7_5_obstruction2_experiment_a_n1_ivc_verify() {
    let (result, _pp, _rs, _z0) = gh75_experiment_run_ivc_verify(1);
    let zn = result.expect("a chain of one step must verify");
    assert_eq!(zn.len(), 1, "zn arity must be 1 (IdentityStepCircuit::arity)");
    assert_eq!(zn[0], M31::zero(), "IdentityStepCircuit zn = z0 = [ZERO]");
}

#[test]
fn m_gh7_5_obstruction2_experiment_b_n2_ivc_verify() {
    let (result, _pp, _rs, _z0) = gh75_experiment_run_ivc_verify(2);
    let zn = result.expect("a chain of two steps must verify");
    assert_eq!(zn.len(), 1, "zn arity must be 1");
    assert_eq!(zn[0], M31::zero(), "IdentityStepCircuit zn = z0 = [ZERO]");
}

type AbsorbStep = Box<dyn Fn(&mut RO2<GH75E>)>;

fn scalar_step(label: String, x: M31) -> (String, AbsorbStep) {
    (label, Box::new(move |ro: &mut RO2<GH75E>| ro.absorb(x)))
}

fn point_step(label: String, g: Point) -> (String, AbsorbStep) {
    (label, Box::new(move |ro: &mut RO2<GH75E>| absorb_point(ro, &g)))
}

fn skip_step(label: &str) -> (String, AbsorbStep) {
    (label.to_string(), Box::new(|_ro: &mut RO2<GH75E>| {}))
}

fn hash_steps(
    digest: M31,
    i: M31,
    z0: &[M31],
    zi: &[M31],
    r_U: &FoldedInstance<GH75E>,
    r: M31,
) -> Vec<(String, AbsorbStep)> {
    let mut steps: Vec<(String, AbsorbStep)> = Vec::new();
    steps.push(scalar_step("digest".to_string(), digest));
    steps.push(scalar_step("i".to_string(), i));
    for (j, e) in z0.iter().enumerate() {
        steps.push(scalar_step(format!("z0[{j}]"), *e));
    }
    for (j, e) in zi.iter().enumerate() {
        steps.push(scalar_step(format!("zi[{j}]"), *e));
    }
    steps.push(point_step("comm_W".to_string(), r_U.comm_W));
    steps.push(point_step("comm_E".to_string(), r_U.comm_E));
    steps.push(scalar_step("T".to_string(), r_U.T));
    match &r_U.T_lookup {
        None => steps.push(skip_step("no T_lookup")),
        Some(v) => {
            for (j, t) in v.iter().enumerate() {
                steps.push(scalar_step(format!("T_lookup[{j}]"), *t));
            }
        }
    }
    match &r_U.comm_L {
        None => steps.push(skip_step("no comm_L")),
        Some(v) => {
            for (j, c) in v.iter().enumerate() {
                steps.push(point_step(format!("comm_L[{j}]"), *c));
            }
        }
    }
    match &r_U.comm_ts {
        None => steps.push(skip_step("no comm_ts")),
        Some(v) => {
            for (j, c) in v.iter().enumerate() {
                steps.push(point_step(format!("comm_ts[{j}]"), *c));
            }
        }
    }
    steps.push(scalar_step("u".to_string(), r_U.u));
    for (j, x) in r_U.X.iter().enumerate() {
        steps.push(scalar_step(format!("X[{j}]"), *x));
    }
    steps.push(scalar_step("r".to_string(), r));
    steps
}

fn compute_partials(steps: &[(String, AbsorbStep)]) -> Vec<(String, M31)> {
    let mut out: Vec<(String, M31)> = Vec::with_capacity(steps.len());
    for prefix_len in 1..=steps.len() {
        let mut hasher = RO2::<GH75E>::new();
        for (_, step) in steps.iter().take(prefix_len) {
            step(&mut hasher);
        }
        let partial = hasher.squeeze(NUM_HASH_BITS);
        out.push((steps[prefix_len - 1].0.clone(), partial));
    }
    out
}

#[test]
fn m_gh7_5_obstruction2_experiment_d_prime_n1_hash_chain_divergence_locus() {
    let (_result, pp, recursive_snark, z0) = gh75_experiment_run_ivc_verify(1);
    let num_steps: usize = 1;
    assert_eq!(recursive_snark.i, 1, "post-bootstrap i must be 1");
    assert_eq!(z0.len(), 1, "arity = 1 for IdentityStepCircuit");
    assert_eq!(recursive_snark.zi.len(), 1, "zi arity = 1");

    let native_steps = hash_steps(
        pp.digest(),
        M31::from_u64(num_steps as u64),
        &z0,
        &recursive_snark.zi,
        &recursive_snark.r_U,
        recursive_snark.ri,
    );

    let k = pp.lookup_fold_k;
    assert_eq!(k, GH75_K, "k mismatch — fixture uses GH75_K = 1");
    let num_io = pp.structure.S.num_io;
    let prover_equiv_r_U: FoldedInstance<GH75E> = FoldedInstance {
        comm_W: Point::identity(),
        comm_E: Point::identity(),
        T: M31::zero(),
        u: M31::zero(),
        X: vec![M31::zero(); num_io],
        T_lookup: Some(vec![M31::zero(); k]),
        comm_L: Some(vec![Point::identity(); k]),
        comm_ts: Some(vec![Point::identity(); k]),
        comm_inv_w: None,
        comm_inv_t: None,
    };
    let prover_equiv_steps = hash_steps(
        pp.digest(),
        M31::from_u64(1),
        &z0,
        &z0,
        &prover_equiv_r_U,
        recursive_snark.ri,
    );

    let native_partials = compute_partials(&native_steps);
    let prover_partials = compute_partials(&prover_equiv_steps);
    let common = native_partials.len().min(prover_partials.len());
    let mut first_divergence: Option<(usize, String)> = None;
    for i in 0..common {
        if native_partials[i].1 != prover_partials[i].1 {
            first_divergence = Some((i, native_partials[i].0.clone()));
            break;
        }
    }
    let verifier_recomputed_hash = native_partials.last().expect("native_partials non-empty").1;
    let l_u_X_0 = recursive_snark.l_u.X[0];
    assert_eq!(
        verifier_recomputed_hash, l_u_X_0,
        "the hash of the state must be the public value of the last step"
    );
    assert!(
        first_divergence.is_none() && native_partials.len() == prover_partials.len(),
        "the hashes must agree at all prefixes: {:?}",
        first_divergence
    );
}

#[test]
fn m_gh7_5_n1_hash_chain_consistency_post_fix_alpha_resolved() {
    let (verify_result, _pp, _recursive_snark, _z0) = gh75_experiment_run_ivc_verify(1);
    verify_result.expect("a chain of one step must verify");
}

#[test]
fn m_gh7_5_0c_default_with_lookup_k_differential_1000_iter_byte_equivalence() {
    let circuit = IdentityStepCircuit::new();
    let pp = gh75_registered(&circuit);
    const N_ITERS: u64 = 1002;
    let k_choices: [usize; 3] = [1, 2, 4];
    let num_io_choices: [usize; 2] = [1, 2];
    let mut total_byte_equal_passes: u64 = 0;
    for iter in 0..N_ITERS {
        let mut seed_bytes = [0u8; 32];
        seed_bytes[..8].copy_from_slice(&iter.to_le_bytes());
        let mut _rng = ChaCha20Rng::from_seed(seed_bytes);
        let case_idx = (iter % 6) as usize;
        let k = k_choices[case_idx % k_choices.len()];
        let num_io = num_io_choices[case_idx / k_choices.len()];
        let _ = num_io;
        let native_inst: FoldedInstance<GH75E> =
            FoldedInstance::default_with_lookup_k(pp.structure.S.num_io, k);
        let mut ro_native = RO2::<GH75E>::new();
        native_inst.absorb_in_ro2(&mut ro_native);
        let native_squeeze = ro_native.squeeze(NUM_HASH_BITS);

        let in_circuit_num_io = native_inst.X.len();
        let mut cs = ConstraintSystem::<M31>::new();
        let alloc_inst: AllocatedFoldedInstance<GH75E> =
            AllocatedFoldedInstance::default_with_lookup_k(&mut cs, in_circuit_num_io, k)
                .expect("AllocatedFoldedInstance::default_with_lookup_k must synthesize cleanly");
        let mut ro_circuit = RO2Circuit::<GH75E>::new();
        alloc_inst
            .absorb_in_ro(&mut cs, &mut ro_circuit)
            .expect("absorb_in_ro must synthesize cleanly");
        let circuit_squeeze = ro_circuit.squeeze(&mut cs, NUM_HASH_BITS);
        assert_eq!(
            native_squeeze,
            circuit_squeeze.get_value().expect("the challenge must have a value"),
            "native and in-circuit neutral instances must be hashed alike at iter={iter}, k={k}"
        );
        total_byte_equal_passes += 1;
    }
    assert!(
        total_byte_equal_passes >= 1000,
        "Differential harness must complete ≥ 1000 byte-equivalence passes; got {total_byte_equal_passes}"
    );
}

fn typecheck_keys<EE: ClosingArgument<GH75E>>() {
    type C = TrivialCircuit<M31>;
    let circuit = C::new();
    let pp = PublicParams::<GH75E, C>::setup(&circuit, 0, vec![], 0, 0, None)
        .expect("PublicParams::setup must succeed at trivial-circuit shape");
    let (_pk, vk) =
        CompressedSNARK::<GH75E, EE>::setup(&pp).expect("CompressedSNARK::setup must succeed");
    assert_eq!(vk.F_arity, 1, "trivial circuit F_arity is 1");
    assert_eq!(vk.lookup_fold_k, 0, "non-lookup-fold path: lookup_fold_k is 0");
    assert_eq!(
        vk.shape_registry_digest,
        M31::zero(),
        "shape_registry_digest is ZERO at empty registry"
    );
    let _: M31 = vk.pp_digest;
    assert_eq!(vk.pp_digest, pp.digest());
    let _: DerandKey<GH75E> = vk.dk;
}

#[test]
fn m_gh7_1_compressed_snark_prover_key_verifier_key_typecheck_both_ees() {
    typecheck_keys::<GH75EE>();
    typecheck_keys::<SelfChecked<GH75EE>>();
}

fn rejected_for(
    envelope: &CompressedSNARK<GH75E, GH75EE>,
    vk: &VerifierKey<GH75E, GH75EE>,
    num_steps: usize,
    z0: &[M31],
    zn: &[M31],
) -> String {
    match envelope.verify(vk, num_steps, z0, zn) {
        Err(NovaError::ProofVerifyError { reason }) => reason,
        other => panic!("a rejection is due, not {other:?}"),
    }
}

#[test]
fn an_envelope_is_rejected_for_what_is_wrong_with_it() {
    let (_pp, vk, chain, mut e, z0, zn) = gh75_build_honest_fixture();
    let one = M31::one();
    let g = Point::base();
    let steps = GH75_N_STEPS;
    assert_eq!(e.verify(&vk, steps, &z0, &zn), Ok(zn.clone()));

    assert_eq!(
        rejected_for(&e, &vk, steps, &[one], &zn),
        "Caller-supplied z0 does not match snapshot z0_snapshot at path (b)"
    );
    assert_eq!(
        rejected_for(&e, &vk, steps + 1, &z0, &zn),
        "Caller-supplied num_steps does not match snapshot i_snapshot at path (b)"
    );
    assert_eq!(
        rejected_for(&e, &vk, steps, &z0, &[one]),
        "Caller-supplied zn does not match prover-claimed self.zn"
    );

    let kept = e.comm_E2_bind;
    e.comm_E2_bind = kept.plus(g);
    assert_eq!(
        rejected_for(&e, &vk, steps, &z0, &zn),
        "off-FS Pedersen-additive binding rejected: comm_E1 + comm_E2_bind != r_U_derand_comm_E"
    );
    e.comm_E2_bind = kept;

    let last = e.sigma_E2_equality.z.pop().expect("the second half of the weights is not empty");
    assert!(rejected_for(&e, &vk, steps, &z0, &zn).starts_with(
        "Sigma E2 equality-of-opening rejected at structural check: proof.z.len() ("
    ));
    e.sigma_E2_equality.z.push(last);

    let kept = e.sigma_E2_equality.z_r_bind;
    e.sigma_E2_equality.z_r_bind = kept.plus(one);
    assert_eq!(
        rejected_for(&e, &vk, steps, &z0, &zn),
        "Sigma E2 equality-of-opening rejected at bind-side"
    );
    e.sigma_E2_equality.z_r_bind = kept;

    let kept = e.sigma_E2_equality.z_r_pcs;
    e.sigma_E2_equality.z_r_pcs = kept.plus(one);
    assert_eq!(
        rejected_for(&e, &vk, steps, &z0, &zn),
        "Sigma E2 equality-of-opening rejected at pcs-side"
    );
    e.sigma_E2_equality.z_r_pcs = kept;

    let kept = e.per_table_comm_inv_w.pop().expect("there is a table");
    assert_eq!(
        rejected_for(&e, &vk, steps, &z0, &zn),
        "per-table envelope fields have inconsistent cardinality"
    );
    e.per_table_comm_inv_w.push(kept);

    e.ri_snapshot = Some(chain.ri.plus(one));
    assert_eq!(
        rejected_for(&e, &vk, steps, &z0, &zn),
        "IVC public-input hash reconstruction mismatch at path (b)"
    );
    e.ri_snapshot = Some(chain.ri);

    let kept = e.snark_spartan.W[0];
    e.snark_spartan.W[0] = kept.plus(one);
    assert_eq!(
        rejected_for(&e, &vk, steps, &z0, &zn),
        "the vectors of the proof do not open the statement"
    );
    e.snark_spartan.W[0] = kept;

    // Folded instances that go with their hash, but not with the tables of the envelope.
    let altered: [(&str, fn(&mut FoldedInstance<GH75E>)); 5] = [
        ("r_U_snapshot.comm_L is None at k>0 path (b)", |U| U.comm_L = None),
        ("r_U_snapshot.comm_ts is None at k>0 path (b)", |U| U.comm_ts = None),
        (
            "r_U_snapshot per-table commitment cardinality mismatch at path (b)",
            |U| U.comm_ts = Some(vec![]),
        ),
        (
            "per-table comm_L commitment-equality mismatch at path (b)",
            |U| U.comm_L = Some(vec![Point::base()]),
        ),
        (
            "per-table comm_ts commitment-equality mismatch at path (b)",
            |U| U.comm_ts = Some(vec![Point::base()]),
        ),
    ];
    for (reason, alter) in altered {
        let mut U = chain.r_U.duplicate();
        alter(&mut U);
        let i = M31::from_u64(steps as u64);
        let hash = hash_of_state::<GH75E>(vk.pp_digest, i, &z0, &zn, &U, chain.ri);
        e.l_u_X0_snapshot = Some(hash);
        e.r_U_snapshot = Some(U);
        assert_eq!(rejected_for(&e, &vk, steps, &z0, &zn), reason);
    }
    e.l_u_X0_snapshot = Some(chain.l_u.X[0]);
    e.r_U_snapshot = Some(chain.r_U.duplicate());
    assert_eq!(e.verify(&vk, steps, &z0, &zn), Ok(zn));
}

#[test]
fn a_chain_is_rejected_for_what_is_wrong_with_it() {
    let (pp, _vk, mut chain, _e, z0, zn) = gh75_build_honest_fixture();
    let one = M31::one();
    assert_eq!(chain.verify(&pp, GH75_N_STEPS, &z0), Ok(zn.clone()));
    assert_eq!(chain.verify(&pp, GH75_N_STEPS + 1, &z0), Err(NovaError::InvalidNumSteps));
    assert_eq!(
        chain.verify(&pp, GH75_N_STEPS, &[one]),
        Err(NovaError::InvalidInitialInputLength)
    );
    let ri = chain.ri;
    chain.ri = ri.plus(one);
    assert_eq!(
        chain.verify(&pp, GH75_N_STEPS, &z0),
        Err(NovaError::ProofVerifyError {
            reason: "the public value of the last step is not the hash of the state".to_string()
        })
    );
    chain.ri = ri;
    chain.l_w.W[0] = chain.l_w.W[0].plus(one);
    assert!(matches!(chain.verify(&pp, GH75_N_STEPS, &z0), Err(NovaError::UnSat { .. })));
}

#[test]
fn a_chain_is_begun_only_where_the_first_step_can_be_laid_out() {
    let circuit = IdentityStepCircuit::new();
    let mut pp = gh75_registered(&circuit);
    let z0 = vec![M31::from_u64(0)];
    let start = |pp: &Params, z0: &[M31]| Chain::new(pp, &circuit, z0).err();

    let chain = Chain::new(&pp, &circuit, &z0).expect("the first step is laid out");
    assert_eq!(chain.i, 0);
    assert_eq!(chain.zi, z0);
    assert_eq!(chain.running_lws.len(), GH75_K);
    let lw = &chain.running_lws[0];
    assert_eq!(lw.witness, vec![M31::zero(); 4]);
    assert_eq!(lw.multiplicities, vec![M31::zero(); GH75_TABLE_SIZE]);
    assert_eq!((lw.eq_w_left.len(), lw.eq_w_right.len()), (2, 2));
    assert_eq!((lw.eq_t_left.len(), lw.eq_t_right.len()), (2, 2));

    assert_eq!(start(&pp, &[]), Some(NovaError::InvalidInitialInputLength));
    assert_eq!(start(&pp, &[z0[0], z0[0]]), Some(NovaError::InvalidInitialInputLength));

    let m = pp.ck.ck.len();
    let mut shape = gh75_lookup_shape();
    shape.tables[0].size = m + 1;
    pp.lookup_shape = Some(shape);
    assert_eq!(start(&pp, &z0), Some(NovaError::InvalidCommitmentKeyLength));
    let mut shape = gh75_lookup_shape();
    shape.witness_ell_cached = 40;
    pp.lookup_shape = Some(shape);
    assert_eq!(start(&pp, &z0), Some(NovaError::InvalidCommitmentKeyLength));
    let mut shape = gh75_lookup_shape();
    shape.witness_ell_cached = 62;
    pp.lookup_shape = Some(shape);
    assert_eq!(start(&pp, &z0), Some(NovaError::InvalidIndex));
    let mut shape = gh75_lookup_shape();
    shape.tables.clear();
    pp.lookup_shape = Some(shape);
    assert_eq!(start(&pp, &z0), Some(NovaError::InvalidIndex));
    pp.lookup_shape = None;
    assert_eq!(start(&pp, &z0), Some(NovaError::InvalidIndex));

    // Three places are no power of two: they stand in a single row.
    let mut shape = gh75_lookup_shape();
    shape.witness_ell_cached = 3;
    shape.tables[0].size = 3;
    pp.lookup_shape = Some(shape);
    let chain = Chain::new(&pp, &circuit, &z0).expect("the first step is laid out");
    let lw = &chain.running_lws[0];
    assert_eq!((lw.eq_w_left.len(), lw.eq_w_right.len()), (4, 2));
    assert_eq!((lw.eq_t_left.len(), lw.eq_t_right.len()), (3, 1));

    pp.shape_registry = vec![pp.digest().plus(M31::one())];
    assert_eq!(
        start(&pp, &z0),
        Some(NovaError::UnSat { reason: "the constraints of the step are not met".to_string() })
    );
    pp.shape_registry = vec![];
    assert!(matches!(start(&pp, &z0), Some(NovaError::Synthesis(_))));
}

#[test]
fn the_snapshot_of_a_chain_is_its_folded_instance() {
    let (_pp, _vk, chain, envelope, _z0, _zn) = gh75_build_honest_fixture();
    let U = &chain.r_U;
    let kept = envelope.r_U_snapshot.as_ref().expect("the envelope is that of a chain");
    assert!(U.comm_inv_w.is_some() && U.comm_inv_t.is_some());
    assert_ne!(U.comm_inv_w, U.comm_inv_t);
    assert_eq!(kept.comm_inv_w, U.comm_inv_w);
    assert_eq!(kept.comm_inv_t, U.comm_inv_t);
    assert_eq!(kept.comm_L, U.comm_L);
    assert_eq!(kept.comm_ts, U.comm_ts);
    assert_eq!((kept.comm_W, kept.comm_E), (U.comm_W, U.comm_E));
    assert_eq!((kept.T, kept.u), (U.T, U.u));
    assert_eq!(kept.X, U.X);
    assert_eq!(kept.T_lookup, U.T_lookup);
}

#[test]
fn a_running_witness_that_is_too_long_is_not_closed() {
    let (pp, _vk, mut chain, _e, _z0, _zn) = gh75_build_honest_fixture();
    let (pk, _vk) = CompressedSNARK::<GH75E, GH75EE>::setup(&pp).expect("the keys can be made");
    let num_cons = pp.structure.S.num_cons;
    chain.running_lws[0].witness = vec![M31::zero(); num_cons + 1];
    let due = NovaError::ProofVerifyError {
        reason: format!(
            "prove_with_lookup_fold: per-table 0 witness length n_w={} exceeds R1CS num_cons={}; \
             Finding F flat-embedding violated",
            num_cons + 1,
            num_cons
        ),
    };
    let prove = |chain: &Chain| {
        CompressedSNARK::<GH75E, GH75EE>::prove_with_lookup_fold(&pp, &pk, chain).err()
    };
    assert_eq!(prove(&chain), Some(due.clone()));
    // The length comes before what else is wrong with the chain.
    chain.r_U.X.push(M31::one());
    assert_eq!(prove(&chain), Some(due));
}

#[test]
fn the_weights_of_a_closed_table_are_powers_of_what_is_drawn() {
    let (pp, _vk, chain, _e, _z0, _zn) = gh75_build_honest_fixture();
    let num_cons = pp.structure.S.num_cons;
    let (tau_w, tau_t) = (M31::from_u64(7), M31::from_u64(11));
    let draws = vec![TableDraw { r_logup: M31::from_u64(0x1234567), tau_w, tau_t }];
    let t = close_tables(&pp.ck, num_cons, &chain.running_lws, &draws)
        .expect("no entry is opposite to the challenge");
    assert_eq!(t.eq_w, vec![powers_of(tau_w, num_cons)]);
    assert_eq!(t.eq_t, vec![powers_of(tau_t, num_cons)]);
    assert_eq!(t.eq_w[0][..3], [M31::one(), tau_w, M31::from_u64(49)]);
}
