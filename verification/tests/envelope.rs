//! The split of the weights, the equality of openings and the envelope of given parts.
#![allow(non_snake_case)]

use neutron::commitment::CommitmentKey;
use neutron::compressed_snark::closing::{ClosingArgument, OpeningArgument};
use neutron::compressed_snark::{
    build_honest_logup_witnesses, build_per_table_commitments, prove_sigma_E2_equality,
    split_E_commitments, verify_sigma_E2_equality, CompressedSNARK, ProverKey,
    SigmaE2EqualityProof, SplitECommitments, VerifierKey,
};
use neutron::engine::Group;
use neutron::frontend::{AllocatedNum, ConstraintSystem};
use neutron::public_params::random_key;
use neutron::random::{random_scalar, SeededRng};
use neutron::reference::{Exponent, ReferenceEngine};
use neutron::relation::FoldedInstance;
use neutron::step_circuit::{NonTrivialCircuit, StepCircuit};
use neutron::structure::{FoldedWitness, R1CSShape, Structure};
use neutron::transcript::Transcript;
use neutron::{NovaError, PrimeField, M31};
use rand_chacha::rand_core::SeedableRng;
use rand_chacha::ChaCha20Rng;

type E = ReferenceEngine<M31>;
type EE = OpeningArgument<E>;
type Point = Exponent<M31>;

fn seeded(seed: u64) -> SeededRng {
    SeededRng::new(ChaCha20Rng::seed_from_u64(seed).get_seed())
}

fn random() -> M31 {
    random_scalar().expect("the operating system provides random numbers")
}

/// Lays the circuit out on its own: the state before it and the state after it are public.
fn direct(cs: &mut ConstraintSystem<M31>, z: Vec<M31>, circuit: &NonTrivialCircuit<M31>) {
    let before: Vec<AllocatedNum<M31>> =
        z.iter().map(|x| AllocatedNum::alloc_value(cs, *x)).collect();
    let after = circuit.synthesize(cs, &before).expect("the circuit can be laid out");
    for n in before.iter() {
        n.inputize(cs);
    }
    for n in after.iter() {
        n.inputize(cs);
    }
}

fn key_for(structure: &Structure<E>) -> CommitmentKey<E> {
    let n = structure.S.num_vars.max(structure.S.num_cons).max(structure.left + structure.right);
    random_key(n).expect("a random key")
}

fn instance(
    comm_W: Point,
    comm_E: Point,
    T: M31,
    X: Vec<M31>,
    u: M31,
) -> FoldedInstance<E> {
    FoldedInstance {
        comm_W,
        comm_E,
        T,
        u,
        X,
        comm_L: None,
        comm_ts: None,
        comm_inv_w: None,
        comm_inv_t: None,
        T_lookup: None,
    }
}

fn build_satisfying_triple() -> (CommitmentKey<E>, Structure<E>, FoldedInstance<E>, FoldedWitness<E>)
{
    let num_cons: usize = 16;
    let circuit = NonTrivialCircuit::<M31>::new(num_cons);
    let mut cs = ConstraintSystem::<M31>::new_shape();
    direct(&mut cs, vec![M31::zero()], &circuit);
    let m = cs.to_matrices().expect("the columns can be counted");
    let shape = R1CSShape::<E>::new(m.num_cons, m.num_vars, m.num_io, m.A, m.B, m.C)
        .expect("the entries lie within the dimensions");
    let structure = Structure::new(&shape);
    let ck = key_for(&structure);

    let mut cs = ConstraintSystem::<M31>::new();
    direct(&mut cs, vec![M31::from_u64(2)], &circuit);
    assert!(cs.is_satisfied());
    let (mut W_vec, X) = cs.recorded_values();
    let r_W = random();
    let comm_W = ck.commit(&W_vec, &r_W);

    let e_flat: Vec<M31> = (0..structure.left + structure.right).map(|_| random()).collect();
    W_vec.resize(structure.S.num_vars, M31::zero());
    let r_E = random();
    let comm_E = ck.commit(&e_flat, &r_E);
    let W = FoldedWitness { W: W_vec, r_W, E: e_flat, r_E };
    let U = instance(comm_W, comm_E, M31::zero(), X, M31::one());
    (ck, structure, U, W)
}

#[test]
fn m_gh7_0_1_split_E_commitments_three_commitments_pedersen_additive_binding_byte_equal() {
    let (ck, structure, U, W) = build_satisfying_triple();
    assert!(structure.is_sat(&ck, &U, &W).is_ok(), "the triple must be satisfied");
    let result = split_E_commitments(&ck, &W, &U, &structure).expect("random numbers");
    assert_eq!(
        result.comm_E1.plus(result.comm_E2_bind),
        U.comm_E,
        "Pedersen-additive identity violated: comm_E1 + comm_E2_bind != U.comm_E",
    );
    assert_eq!(
        result.r_E1.plus(result.r_E2_bind),
        W.r_E,
        "Blinding-split discipline violated: r_E1 + r_E2_bind != W.r_E",
    );
    let (_E1_slice, E2_slice) = W.E.split_at(structure.left);
    let expected_comm_E2_pcs = ck.commit(E2_slice, &result.r_E2_pcs);
    assert_eq!(result.comm_E2_pcs, expected_comm_E2_pcs);
}

/// A witness with other weights, and the instance that goes with it.
fn reweighted(
    ck: &CommitmentKey<E>,
    structure: &Structure<E>,
    U: &FoldedInstance<E>,
    W: &FoldedWitness<E>,
    rng: &mut SeededRng,
) -> (FoldedInstance<E>, FoldedWitness<E>) {
    let e_flat: Vec<M31> = rng.scalars(structure.left + structure.right);
    let r_E: M31 = rng.scalar();
    let comm_E = ck.commit(&e_flat, &r_E);
    (
        instance(U.comm_W, comm_E, U.T, U.X.clone(), U.u),
        FoldedWitness { W: W.W.clone(), r_W: W.r_W, E: e_flat, r_E },
    )
}

#[test]
fn msm_linearity_prefix_suffix_decomposition_byte_equal_1000_iter() {
    let (ck, structure, U_template, W_template) = build_satisfying_triple();
    let mut rng = SeededRng::new([0u8; 32]);
    for _iter in 0..1000 {
        let (U, W) = reweighted(&ck, &structure, &U_template, &W_template, &mut rng);
        let result = split_E_commitments(&ck, &W, &U, &structure).expect("random numbers");
        assert_eq!(result.comm_E1.plus(result.comm_E2_bind), U.comm_E);
        assert_eq!(result.r_E1.plus(result.r_E2_bind), W.r_E);
        let (_E1_slice, E2_slice) = W.E.split_at(structure.left);
        let expected_comm_E2_pcs = ck.commit(E2_slice, &result.r_E2_pcs);
        assert_eq!(result.comm_E2_pcs, expected_comm_E2_pcs);
    }
}

#[test]
fn falsifier_i_r_E2_pcs_independent_from_r_E2_bind_1000_iter() {
    let (ck, structure, U, W) = build_satisfying_triple();
    for iter in 0..1000 {
        let result = split_E_commitments(&ck, &W, &U, &structure).expect("random numbers");
        assert_ne!(
            result.r_E2_pcs, result.r_E2_bind,
            "the two blindings must be drawn apart, at iter {}",
            iter
        );
    }
}

#[test]
fn blinding_split_sum_identity_independent_of_random_draw() {
    let (ck, structure, U, W) = build_satisfying_triple();
    let mut prior_r_E1: Option<M31> = None;
    let mut prior_r_E2_pcs: Option<M31> = None;
    for _ in 0..8 {
        let result = split_E_commitments(&ck, &W, &U, &structure).expect("random numbers");
        assert_eq!(result.r_E1.plus(result.r_E2_bind), W.r_E);
        assert_eq!(result.comm_E1.plus(result.comm_E2_bind), U.comm_E);
        if let Some(prior) = prior_r_E1 {
            assert_ne!(
                result.r_E1, prior,
                "r_E1 should be fresh-random per call (negligible collision probability)",
            );
        }
        prior_r_E1 = Some(result.r_E1);
        if let Some(prior) = prior_r_E2_pcs {
            assert_ne!(
                result.r_E2_pcs, prior,
                "r_E2_pcs should be fresh-random per call (negligible collision probability)",
            );
        }
        prior_r_E2_pcs = Some(result.r_E2_pcs);
    }
}

fn prove_equality(
    ck: &CommitmentKey<E>,
    structure: &Structure<E>,
    E2: &[M31],
    split: &SplitECommitments<E>,
    comm_E: &Point,
    label: &str,
) -> SigmaE2EqualityProof<E> {
    let mut ts = Transcript::<E>::new(label);
    prove_sigma_E2_equality(
        ck,
        structure,
        E2,
        &split.r_E2_bind,
        &split.r_E2_pcs,
        &split.comm_E1,
        &split.comm_E2_bind,
        &split.comm_E2_pcs,
        comm_E,
        &mut ts,
    )
    .expect("Σ-prover should succeed on honest inputs")
}

fn verify_equality(
    ck: &CommitmentKey<E>,
    structure: &Structure<E>,
    split: &SplitECommitments<E>,
    comm_E2_pcs: &Point,
    comm_E: &Point,
    proof: &SigmaE2EqualityProof<E>,
) -> Result<(), NovaError> {
    let mut ts = Transcript::<E>::new("NeutronCompressedSNARK_envelope");
    verify_sigma_E2_equality(
        ck,
        structure,
        &split.comm_E1,
        &split.comm_E2_bind,
        comm_E2_pcs,
        comm_E,
        proof,
        &mut ts,
    )
}

fn assert_rejected_at_a_side(result: Result<(), NovaError>, what: &str) {
    match result {
        Err(NovaError::ProofVerifyError { reason }) => assert!(
            reason.contains("bind-side") || reason.contains("pcs-side"),
            "Σ-verifier should reject at one of the two equations on {}; got reason: {}",
            what,
            reason,
        ),
        Ok(()) => panic!("Σ-verifier MUST reject on {}", what),
        Err(other) => panic!("Σ-verifier rejected with unexpected error on {}: {:?}", what, other),
    }
}

#[test]
fn m_gh7_0_1b_sigma_E2_equality_round_trip_and_negative_byte_equal() {
    let (ck, structure, U, W) = build_satisfying_triple();
    let split = split_E_commitments(&ck, &W, &U, &structure).expect("random numbers");
    let E2 = W.E[structure.left..].to_vec();
    let envelope = "NeutronCompressedSNARK_envelope";
    let proof = prove_equality(&ck, &structure, &E2, &split, &U.comm_E, envelope);
    verify_equality(&ck, &structure, &split, &split.comm_E2_pcs, &U.comm_E, &proof)
        .expect("Σ-verifier must accept honest proof");

    let mut E2_forged = E2.clone();
    E2_forged[0] = E2[0].plus(M31::one());
    let comm_E2_pcs_forged = ck.commit(&E2_forged, &split.r_E2_pcs);
    assert_ne!(
        comm_E2_pcs_forged, split.comm_E2_pcs,
        "Forged comm_E2_pcs' should differ from honest comm_E2_pcs (sanity check)",
    );
    assert_rejected_at_a_side(
        verify_equality(&ck, &structure, &split, &comm_E2_pcs_forged, &U.comm_E, &proof),
        "another vector",
    );

    let mut recovery = Transcript::<E>::new(envelope);
    recovery.absorb_point("r_U_comm_E", &U.comm_E);
    recovery.absorb_point("comm_E1", &split.comm_E1);
    recovery.absorb_point("comm_E2_bind", &split.comm_E2_bind);
    recovery.absorb_point("comm_E2_pcs", &split.comm_E2_pcs);
    recovery.absorb_point("sigma_T_bind", &proof.T_bind);
    recovery.absorb_point("sigma_T_pcs", &proof.T_pcs);
    let alpha_honest = recovery
        .squeeze("sigma_E2_equality_alpha")
        .expect("α-squeeze must succeed for the test setup");
    let alpha_forged = alpha_honest.plus(M31::one());
    let delta_alpha = alpha_forged.minus(alpha_honest);
    let z_forged: Vec<M31> = proof
        .z
        .iter()
        .zip(E2.iter())
        .map(|(z_i, e2_i)| z_i.plus(delta_alpha.times(*e2_i)))
        .collect();
    let proof_alpha_forge = SigmaE2EqualityProof::<E> {
        T_bind: proof.T_bind,
        T_pcs: proof.T_pcs,
        z: z_forged,
        z_r_bind: proof.z_r_bind.plus(delta_alpha.times(split.r_E2_bind)),
        z_r_pcs: proof.z_r_pcs.plus(delta_alpha.times(split.r_E2_pcs)),
    };
    assert_rejected_at_a_side(
        verify_equality(
            &ck,
            &structure,
            &split,
            &split.comm_E2_pcs,
            &U.comm_E,
            &proof_alpha_forge,
        ),
        "answers to another challenge",
    );

    let proof_wrong_dom =
        prove_equality(&ck, &structure, &E2, &split, &U.comm_E, "RelaxedR1CSSNARK");
    assert_rejected_at_a_side(
        verify_equality(&ck, &structure, &split, &split.comm_E2_pcs, &U.comm_E, &proof_wrong_dom),
        "a proof for another protocol",
    );
}

#[test]
fn m_gh7_0_1b_sigma_E2_equality_round_trip_1000_iter() {
    let (ck, structure, U_template, W_template) = build_satisfying_triple();
    let mut rng = SeededRng::new([1u8; 32]);
    for iter in 0..1000 {
        let (U, W) = reweighted(&ck, &structure, &U_template, &W_template, &mut rng);
        let split = split_E_commitments(&ck, &W, &U, &structure).expect("random numbers");
        let E2 = W.E[structure.left..].to_vec();
        let proof = prove_equality(
            &ck,
            &structure,
            &E2,
            &split,
            &U.comm_E,
            "NeutronCompressedSNARK_envelope",
        );
        verify_equality(&ck, &structure, &split, &split.comm_E2_pcs, &U.comm_E, &proof)
            .unwrap_or_else(|e| {
                panic!("Σ-verifier rejected honest proof at iter {}: {:?}", iter, e)
            });
    }
}

#[test]
fn sigma_of_the_wrong_length_is_rejected_with_both_lengths() {
    let (ck, structure, U, W) = build_satisfying_triple();
    assert_eq!(structure.right, 4);
    let split = split_E_commitments(&ck, &W, &U, &structure).expect("random numbers");
    let E2 = W.E[structure.left..].to_vec();
    let mut proof = prove_equality(
        &ck,
        &structure,
        &E2,
        &split,
        &U.comm_E,
        "NeutronCompressedSNARK_envelope",
    );
    proof.z.push(M31::zero());
    let result = verify_equality(&ck, &structure, &split, &split.comm_E2_pcs, &U.comm_E, &proof);
    assert_eq!(
        result,
        Err(NovaError::ProofVerifyError {
            reason: "Sigma E2 equality-of-opening rejected at structural check: proof.z.len() (5) != structure.right (4)"
                .to_string()
        })
    );
}

fn build_T_form_folded_triple(
    rng: &mut SeededRng,
    left: usize,
    right: usize,
) -> (CommitmentKey<E>, Structure<E>, FoldedInstance<E>, FoldedWitness<E>) {
    let num_cons = left * right;
    let num_vars = num_cons;
    let num_io = 1usize;
    let one = M31::one();
    let A: Vec<(usize, usize, M31)> = (0..num_cons).map(|i| (i, i, one)).collect();
    let B: Vec<(usize, usize, M31)> = (0..num_cons).map(|i| (i, num_vars, one)).collect();
    let C: Vec<(usize, usize, M31)> = vec![];
    let shape = R1CSShape::<E>::new(num_cons, num_vars, num_io, A, B, C)
        .expect("the entries lie within the dimensions");
    let structure = Structure::new(&shape);
    assert_eq!(structure.left, left);
    assert_eq!(structure.right, right);
    let ck = key_for(&structure);

    let E1: Vec<M31> = rng.scalars(left);
    let E2: Vec<M31> = rng.scalars(right);
    let mut e_flat: Vec<M31> = Vec::with_capacity(left + right);
    e_flat.extend_from_slice(&E1);
    e_flat.extend_from_slice(&E2);
    let W_vec: Vec<M31> = rng.scalars(num_vars);
    let X: Vec<M31> = vec![M31::zero(); num_io];
    let mut T = M31::zero();
    for i in 0..right {
        for j in 0..left {
            T = T.plus(E2[i].times(E1[j]).times(W_vec[i * left + j]));
        }
    }
    let r_W: M31 = rng.scalar();
    let r_E: M31 = rng.scalar();
    let comm_W = ck.commit(&W_vec, &r_W);
    let comm_E = ck.commit(&e_flat, &r_E);
    let W = FoldedWitness { W: W_vec, r_W, E: e_flat, r_E };
    let U = instance(comm_W, comm_E, T, X, one);
    (ck, structure, U, W)
}

fn keys(
    ck: &CommitmentKey<E>,
    structure: &Structure<E>,
) -> (ProverKey<E, EE>, VerifierKey<E, EE>) {
    let (pk_spartan, vk_spartan) = EE::setup(ck, structure).expect("the key is long enough");
    let vk = VerifierKey {
        F_arity: 1,
        pp_digest: M31::zero(),
        vk_spartan,
        lookup_fold_k: 0,
        shape_registry_digest: M31::zero(),
        dk: ck.derand_key(),
        structure: structure.duplicate(),
        ck: ck.duplicate(),
    };
    (ProverKey { pk_spartan }, vk)
}

#[test]
fn an_answer_of_the_wrong_length_leaves_the_transcript_alone() {
    let (ck, structure, U, W) = build_satisfying_triple();
    let split = split_E_commitments(&ck, &W, &U, &structure).expect("random numbers");
    let E2 = W.E[structure.left..].to_vec();
    let mut proof = prove_equality(&ck, &structure, &E2, &split, &U.comm_E, "label");
    let mut ts = Transcript::<E>::new("label");
    let verdict = |ts: &mut Transcript<E>, proof: &SigmaE2EqualityProof<E>| {
        verify_sigma_E2_equality(
            &ck,
            &structure,
            &split.comm_E1,
            &split.comm_E2_bind,
            &split.comm_E2_pcs,
            &U.comm_E,
            proof,
            ts,
        )
    };
    proof.z.push(M31::zero());
    assert!(verdict(&mut ts, &proof).is_err());
    proof.z.pop();
    assert_eq!(verdict(&mut ts, &proof), Ok(()));
    // A verdict on an answer of the right length moves it on.
    assert!(verdict(&mut ts, &proof).is_err());
}

#[test]
fn a_changed_answer_is_rejected_where_a_generator_sees_it() {
    let (mut ck, structure, mut U, W) = build_satisfying_triple();
    let left = structure.left;
    let E2 = W.E[left..].to_vec();
    let label = "NeutronCompressedSNARK_envelope";
    // Generators that are neutral on no side, on the first side, on both sides.
    for reason in [
        Some("Sigma E2 equality-of-opening rejected at bind-side"),
        Some("Sigma E2 equality-of-opening rejected at pcs-side"),
        None,
    ] {
        U.comm_E = ck.commit(&W.E, &W.r_E);
        let split = split_E_commitments(&ck, &W, &U, &structure).expect("random numbers");
        let mut proof = prove_equality(&ck, &structure, &E2, &split, &U.comm_E, label);
        let pcs = split.comm_E2_pcs;
        assert_eq!(verify_equality(&ck, &structure, &split, &pcs, &U.comm_E, &proof), Ok(()));
        proof.z[1] = proof.z[1].plus(M31::one());
        let r = verify_equality(&ck, &structure, &split, &pcs, &U.comm_E, &proof);
        match reason {
            Some(reason) => assert_eq!(
                r,
                Err(NovaError::ProofVerifyError { reason: reason.to_string() })
            ),
            None => assert_eq!(r, Ok(())),
        }
        if ck.ck[left + 1] == Point::identity() {
            ck.ck[1] = Point::identity();
        }
        ck.ck[left + 1] = Point::identity();
    }
}

#[test]
fn a_proof_of_equal_openings_is_bound_to_its_commitments() {
    let (ck, structure, U, W) = build_satisfying_triple();
    let split = split_E_commitments(&ck, &W, &U, &structure).expect("random numbers");
    let E2 = W.E[structure.left..].to_vec();
    let label = "NeutronCompressedSNARK_envelope";
    let proof = prove_equality(&ck, &structure, &E2, &split, &U.comm_E, label);
    let mut other = E2.clone();
    other[0] = other[0].plus(M31::one());
    let pcs = ck.commit(&other, &split.r_E2_pcs);
    assert_ne!(pcs, split.comm_E2_pcs);
    assert_rejected_at_a_side(
        verify_equality(&ck, &structure, &split, &pcs, &U.comm_E, &proof),
        "a commitment to another vector",
    );
}

#[test]
fn m_gh7_0_2_compressed_snark_envelope_off_fs_pedersen_binding_and_sigma_E2_equality() {
    let mut rng = seeded(0xC0FFEE_0700_0200u64);
    {
        let (ck, structure, U, W) = build_T_form_folded_triple(&mut rng, 2, 2);
        assert!(structure.is_sat(&ck, &U, &W).is_ok());
        let (pk, vk) = keys(&ck, &structure);
        let zn = vec![M31::from_u64(42)];
        let snark =
            CompressedSNARK::<E, EE>::prove_from_parts(&ck, &structure, &pk, &U, &W, zn.clone())
                .expect("CompressedSNARK::prove_from_parts must succeed for honest folded triple");
        assert_eq!(
            snark.U_bridged.comm_E1.plus(snark.comm_E2_bind),
            snark.r_U_derand_comm_E,
            "Pedersen-additive binding violated at envelope",
        );
        let z0_unused: Vec<M31> = vec![M31::zero(); 1];
        let returned_zn = snark
            .verify(&vk, 1, &z0_unused, &zn)
            .expect("CompressedSNARK::verify must accept an honest envelope proof");
        assert_eq!(returned_zn, zn, "verify must return self.zn on success");
    }
    let mut rng_diff = seeded(0xFAC1_0700_0200u64);
    for iter in 0..1000 {
        let (ck, structure, U, W) = build_T_form_folded_triple(&mut rng_diff, 2, 2);
        let (pk, vk) = keys(&ck, &structure);
        let zn = vec![M31::from_u64(iter as u64)];
        let snark =
            CompressedSNARK::<E, EE>::prove_from_parts(&ck, &structure, &pk, &U, &W, zn.clone())
                .unwrap_or_else(|e| panic!("prove_from_parts failed at iter={}: {:?}", iter, e));
        assert_eq!(
            snark.U_bridged.comm_E1.plus(snark.comm_E2_bind),
            snark.r_U_derand_comm_E,
            "Pedersen-additive binding violated at iter={}",
            iter
        );
        let z0_unused: Vec<M31> = vec![M31::zero(); 1];
        snark
            .verify(&vk, 1, &z0_unused, &zn)
            .unwrap_or_else(|e| panic!("verify failed at iter={}: {:?}", iter, e));
    }
}

fn reason_of(result: Result<Vec<M31>, NovaError>) -> String {
    match result {
        Err(NovaError::ProofVerifyError { reason }) => reason,
        Ok(_) => panic!("CompressedSNARK::verify MUST reject"),
        Err(other) => panic!("Unexpected error variant: {:?}", other),
    }
}

#[test]
fn m_gh7_0_2_compressed_snark_envelope_rejects_corrupted_binding_and_sigma() {
    let mut rng = seeded(0xDEADBEEF_0700_0200u64);
    let (ck, structure, U, W) = build_T_form_folded_triple(&mut rng, 2, 2);
    let (pk, vk) = keys(&ck, &structure);
    let zn = vec![M31::from_u64(7)];
    let z0_unused: Vec<M31> = vec![M31::zero(); 1];
    let prove = || {
        CompressedSNARK::<E, EE>::prove_from_parts(&ck, &structure, &pk, &U, &W, zn.clone())
            .expect("honest prove must succeed")
    };
    prove()
        .verify(&vk, 1, &z0_unused, &zn)
        .expect("honest proof must verify before perturbation");
    {
        let mut snark = prove();
        let delta_scalar: M31 = rng.scalar();
        let delta = ck.commit(&[delta_scalar], &M31::zero());
        snark.comm_E2_bind = snark.comm_E2_bind.plus(delta);
        let reason = reason_of(snark.verify(&vk, 1, &z0_unused, &zn));
        assert!(
            reason.contains("off-FS Pedersen-additive binding rejected"),
            "the sum of the commitments must be tested first; got reason: {}",
            reason,
        );
    }
    {
        let mut snark = prove();
        snark.sigma_E2_equality.z[0] = snark.sigma_E2_equality.z[0].plus(M31::one());
        let reason = reason_of(snark.verify(&vk, 1, &z0_unused, &zn));
        assert!(
            reason.contains("Sigma E2 equality-of-opening rejected"),
            "the equality of the openings must be tested second; got reason: {}",
            reason,
        );
    }
}

#[test]
fn the_envelope_names_what_it_rejects() {
    let mut rng = seeded(5);
    let (ck, structure, U, W) = build_T_form_folded_triple(&mut rng, 2, 2);
    let (pk, vk) = keys(&ck, &structure);
    let zn = vec![M31::from_u64(7)];
    let z0 = vec![M31::zero()];
    let prove = || {
        CompressedSNARK::<E, EE>::prove_from_parts(&ck, &structure, &pk, &U, &W, zn.clone())
            .expect("honest prove must succeed")
    };
    let other = vec![M31::from_u64(8)];
    assert_eq!(
        reason_of(prove().verify(&vk, 1, &z0, &other)),
        "Caller-supplied zn does not match prover-claimed self.zn"
    );
    let mut snark = prove();
    snark.per_table_comm_ts.push(Point::identity());
    assert_eq!(
        reason_of(snark.verify(&vk, 1, &z0, &zn)),
        "per-table envelope fields have inconsistent cardinality"
    );
    let mut snark = prove();
    snark.U_bridged.T = snark.U_bridged.T.plus(M31::one());
    assert_eq!(
        reason_of(snark.verify(&vk, 1, &z0, &zn)),
        "the vectors of the proof do not open the statement"
    );
    let snark = prove();
    let mut bytes = snark.U_bridged.comm_W.to_bytes();
    bytes.extend(snark.U_bridged.comm_E1.to_bytes());
    bytes.extend(snark.U_bridged.comm_E2_pcs.to_bytes());
    bytes.extend(snark.U_bridged.u.to_bytes());
    bytes.extend(snark.U_bridged.X[0].to_bytes());
    assert_eq!(snark.U_bridged.to_transcript_bytes(), bytes);
}

#[test]
fn m_gh7_4c_compressed_snark_end_to_end_with_per_table_lookup_envelope_transcript() {
    let mut rng = seeded(0xC1BE_5BAD_C0DE_704Cu64);
    let (ck, structure, U, W) = build_T_form_folded_triple(&mut rng, 4, 2);
    assert_eq!(structure.S.num_cons, 8, "fixture: num_cons must equal 8");
    let (pk, vk) = keys(&ck, &structure);
    let k: usize = 2;
    let num_cons: usize = 8;
    let (
        per_table_w,
        per_table_ts,
        per_table_inv_w,
        per_table_inv_t,
        per_table_T,
        per_table_eq_w,
        per_table_eq_t,
        r_logup_per_table,
    ) = build_honest_logup_witnesses::<E>(&mut rng, num_cons, k).expect("the inverses exist");
    let (per_table_comm_L, per_table_comm_ts, per_table_comm_inv_w, per_table_comm_inv_t) =
        build_per_table_commitments::<E>(
            &ck,
            &per_table_w,
            &per_table_ts,
            &per_table_inv_w,
            &per_table_inv_t,
        );
    let zn = vec![M31::from_u64(0xC1BE)];
    let snark = CompressedSNARK::<E, EE>::prove_from_parts_with_logup(
        &ck,
        &structure,
        &pk,
        &U,
        &W,
        zn.clone(),
        per_table_w,
        per_table_ts,
        per_table_inv_w,
        per_table_inv_t,
        per_table_T,
        per_table_eq_w,
        per_table_eq_t,
        r_logup_per_table,
        per_table_comm_L,
        per_table_comm_ts,
        per_table_comm_inv_w,
        per_table_comm_inv_t,
    )
    .expect("CompressedSNARK::prove_from_parts_with_logup must succeed at num_cons=8, k=2");
    assert_eq!(snark.per_table_comm_L.len(), k);
    assert_eq!(snark.per_table_comm_ts.len(), k);
    assert_eq!(snark.per_table_comm_inv_w.len(), k);
    assert_eq!(snark.per_table_comm_inv_t.len(), k);
    assert_eq!(snark.per_table_T_lookup.len(), k);
    assert_eq!(snark.per_table_r_logup.len(), k);
    for j in 0..k {
        assert_eq!(
            snark.per_table_T_lookup[j].len(),
            num_cons,
            "Finding F flat-embedding: per-table T_lookup at length num_cons",
        );
    }
    assert_eq!(
        snark.U_bridged.comm_E1.plus(snark.comm_E2_bind),
        snark.r_U_derand_comm_E,
        "Pedersen-additive binding violated at the envelope",
    );
    let z0_unused: Vec<M31> = vec![M31::zero(); 1];
    let returned_zn = snark
        .verify(&vk, 1, &z0_unused, &zn)
        .expect("CompressedSNARK::verify must accept the envelope with lookups");
    assert_eq!(returned_zn, zn, "verify must return self.zn on success");
}
