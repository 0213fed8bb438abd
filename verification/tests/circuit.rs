//! The augmented circuit of a step, what it refuses, and random numbers.
#![allow(non_snake_case)]

use neutron::circuit::{NeutronAugmentedCircuit, NeutronAugmentedCircuitInputs};
use neutron::columns::{LookupShape, LookupTableHandle, MultiColumnLookupTable};
use neutron::commitment::CommitmentKey;
use neutron::engine::Group;
use neutron::frontend::{AllocatedNum, ConstraintSystem};
use neutron::idle::IdentityStepCircuit;
use neutron::public_params::{random_key, PublicParams};
use neutron::random::{random_scalar, scalar_from_draws, SeededRng};
use neutron::recursive::{LookupStepCircuit, RecursiveSNARK};
use neutron::reference::{Exponent, ReferenceEngine};
use neutron::relation::{FoldedInstance, LookupPayloadPublic, R1CSInstance, NIFS};
use neutron::bundle::public_bundles;
use neutron::shape_registry::assert_pp_digest_matches_registry;
use neutron::step_circuit::{StepCounter, TrivialCircuit};
use neutron::structure::R1CSShape;
use neutron::{NovaError, PrimeField, SynthesisError, M31};
use rand_chacha::rand_core::{RngCore, SeedableRng};
use rand_chacha::ChaCha20Rng;

type E = ReferenceEngine<M31>;
type Point = Exponent<M31>;
type Params = PublicParams<E, IdentityStepCircuit>;
type Chain = RecursiveSNARK<E, IdentityStepCircuit>;

fn n(x: u64) -> M31 {
    M31::from_u64(x)
}

fn first_inputs(z0: u64) -> NeutronAugmentedCircuitInputs<E> {
    NeutronAugmentedCircuitInputs::new(
        M31::zero(),
        M31::zero(),
        vec![n(z0)],
        None,
        None,
        None,
        n(9),
        None,
        None,
        None,
        None,
    )
}

fn lookup_shape() -> LookupShape<E> {
    let ck: CommitmentKey<E> = random_key(4).expect("a random key");
    let addresses: Vec<M31> = (0..4).map(n).collect();
    LookupShape {
        tables: vec![LookupTableHandle {
            table_id: 0,
            size: 4,
            commitment: ck.commit(&addresses, &M31::zero()),
        }],
        multi_column_tables: vec![MultiColumnLookupTable {
            table_id: 0,
            size: 4,
            columns: vec![],
            value_commitments: vec![],
        }],
        num_addr_columns: 1,
        num_witness_columns: 1,
        witness_ell_cached: 2,
    }
}

/// A chain of two steps with one table, whose parameters are registered.
fn two_steps() -> (Params, Chain) {
    let circuit = IdentityStepCircuit::new();
    let mut pp = Params::setup(&circuit, 0, vec![M31::zero()], 1, 1, Some(lookup_shape()))
        .expect("the parameters can be set up");
    pp.shape_registry = vec![pp.digest()];
    let mut chain = Chain::new(&pp, &circuit, &[M31::zero()]).expect("the chain can begin");
    for _ in 0..2 {
        chain.prove_step_with_lookup_fold(&pp, &circuit).expect("a step can be taken");
    }
    (pp, chain)
}

/// The inputs of the next step of a chain.
fn next_inputs(pp: &Params, chain: &Chain) -> NeutronAugmentedCircuitInputs<E> {
    let circuit = IdentityStepCircuit::new();
    let bundles = circuit
        .per_table_bundles_at_step(&pp.ck, chain.i, &chain.running_lws)
        .expect("the lookups of the step");
    let public = public_bundles(&bundles);
    let out = NIFS::<E>::prove_with_multi_table_lookup(
        &pp.ck,
        &pp.structure,
        pp.digest(),
        &chain.r_U,
        &chain.r_W,
        &chain.l_u,
        &chain.l_w,
        &bundles,
        &pp.lookup_shape.as_ref().unwrap().multi_column_tables,
        &public,
        n(41),
    )
    .expect("the fold can be made");
    NeutronAugmentedCircuitInputs::new(
        pp.digest(),
        n(chain.i as u64),
        chain.z0.clone(),
        Some(chain.zi.clone()),
        Some(chain.r_U.duplicate()),
        Some(chain.ri),
        n(43),
        Some(R1CSInstance { comm_W: chain.l_u.comm_W, X: chain.l_u.X.clone() }),
        Some(out.nifs),
        Some(out.U.comm_W),
        Some(out.U.comm_E),
    )
    .with_multi_table_bundles(Some(public))
}

fn satisfied(pp: &Params, inputs: NeutronAugmentedCircuitInputs<E>) -> bool {
    let circuit = IdentityStepCircuit::new();
    let a = NeutronAugmentedCircuit::<E, IdentityStepCircuit>::new(Some(inputs), &circuit)
        .with_lookup_fold(1, &pp.shape_registry, 1);
    assert!(!a.fold_vanishes());
    let mut cs = ConstraintSystem::<M31>::new();
    let z = a.synthesize(&mut cs).expect("the step can be laid out");
    assert_eq!(z[0].get_value(), Some(M31::zero()));
    cs.is_satisfied()
}

#[test]
fn a_step_of_a_chain_is_satisfied() {
    let (pp, chain) = two_steps();
    assert!(satisfied(&pp, next_inputs(&pp, &chain)));
}

#[test]
fn a_recorded_step_meets_the_constraints_of_a_step_without_inputs() {
    let (pp, chain) = two_steps();
    let circuit = IdentityStepCircuit::new();
    let mut shape = ConstraintSystem::<M31>::new_shape();
    NeutronAugmentedCircuit::<E, IdentityStepCircuit>::new(None, &circuit)
        .with_lookup_fold(1, &pp.shape_registry, 1)
        .synthesize(&mut shape)
        .expect("the step can be laid out without inputs");
    let mut cs = ConstraintSystem::<M31>::new();
    NeutronAugmentedCircuit::<E, IdentityStepCircuit>::new(
        Some(next_inputs(&pp, &chain)),
        &circuit,
    )
    .with_lookup_fold(1, &pp.shape_registry, 1)
    .synthesize(&mut cs)
    .expect("the step can be laid out");
    assert!(cs.is_satisfied());

    let a = shape.to_matrices().expect("the columns can be counted");
    let b = cs.to_matrices().expect("the columns can be counted");
    assert_eq!((a.num_cons, a.num_vars, a.num_io), (b.num_cons, b.num_vars, b.num_io));
    assert_eq!(a.num_io, 1);
    assert!(a.A == b.A && a.B == b.B && a.C == b.C);

    let (mut z, io) = cs.recorded_values();
    z.push(M31::one());
    z.extend(io);
    let constraints = R1CSShape::<E>::new(a.num_cons, a.num_vars, a.num_io, a.A, a.B, a.C)
        .expect("the entries lie within the dimensions");
    assert!(constraints.is_met_by(&z));
    let last = z.len() - 1;
    z[last] = z[last].plus(M31::one());
    assert!(!constraints.is_met_by(&z));
}

#[test]
fn a_running_instance_without_claims_is_refused_under_tables() {
    let (pp, chain) = two_steps();
    let circuit = IdentityStepCircuit::new();
    let mut inputs = next_inputs(&pp, &chain);
    inputs.U.as_mut().expect("there is a running instance").T_lookup = None;
    let mut cs = ConstraintSystem::<M31>::new();
    let r = NeutronAugmentedCircuit::<E, IdentityStepCircuit>::new(Some(inputs), &circuit)
        .with_lookup_fold(1, &pp.shape_registry, 1)
        .synthesize(&mut cs);
    match r {
        Err(SynthesisError::Unsatisfiable(msg)) => assert_eq!(
            msg,
            "synthesize_non_base_case_lookup_fold: U.T_lookup_per_table is None under \
             lookup_fold_k > 0; alloc_witness should populate via k-hint"
        ),
        _ => panic!("there are no claims to carry on"),
    }

    // An offset has nothing to be added to either.
    let mut inputs = next_inputs(&pp, &chain).with_corrupt_t_lookup_at_index(0, n(1));
    inputs.U.as_mut().expect("there is a running instance").T_lookup = None;
    let mut cs = ConstraintSystem::<M31>::new();
    let r = NeutronAugmentedCircuit::<E, IdentityStepCircuit>::new(Some(inputs), &circuit)
        .with_lookup_fold(1, &pp.shape_registry, 1)
        .synthesize(&mut cs);
    match r {
        Err(SynthesisError::Unsatisfiable(msg)) => assert!(
            msg.starts_with(
                "alloc_witness: corrupt_t_lookup_at_index is Some but U.T_lookup_per_table is None"
            ),
            "{msg}"
        ),
        _ => panic!("there are no claims to be offset"),
    }
}

#[test]
fn running_claims_of_another_number_are_refused() {
    let (pp, chain) = two_steps();
    let circuit = IdentityStepCircuit::new();
    let mut inputs = next_inputs(&pp, &chain);
    inputs.U.as_mut().expect("there is a running instance").T_lookup = Some(vec![n(0), n(0)]);
    let mut cs = ConstraintSystem::<M31>::new();
    let r = NeutronAugmentedCircuit::<E, IdentityStepCircuit>::new(Some(inputs), &circuit)
        .with_lookup_fold(1, &pp.shape_registry, 1)
        .synthesize(&mut cs);
    match r {
        Err(SynthesisError::Unsatisfiable(msg)) => assert_eq!(
            msg,
            "verify_with_multi_table_lookup: per-table count mismatch (k=1, public_bundles=1, \
             t_lookup_running=2, comm_inv_w=1, comm_inv_t=1)"
        ),
        _ => panic!("there is one table only"),
    }
}

/// The hash that a step publishes, and the state after it.
fn published(inputs: NeutronAugmentedCircuitInputs<E>) -> (Vec<M31>, Option<M31>) {
    let circuit = TrivialCircuit::<M31>::new();
    let a = NeutronAugmentedCircuit::<E, TrivialCircuit<M31>>::new(Some(inputs), &circuit);
    assert!(!a.fold_vanishes());
    let mut cs = ConstraintSystem::<M31>::new();
    let z = a.synthesize(&mut cs).expect("the step can be laid out");
    (cs.recorded_values().1, z[0].get_value())
}

#[test]
fn the_first_step_forgets_what_a_step_takes_over() {
    let expected = published(first_inputs(5));
    assert_eq!(expected.0.len(), 1);
    assert_eq!(expected.1, Some(n(5)));

    let g = Point::base();
    let mut inputs = first_inputs(5);
    inputs.zi = Some(vec![n(77)]);
    inputs.ri = Some(n(3));
    inputs.u = Some(R1CSInstance { comm_W: g, X: vec![n(4)] });
    inputs.comm_W_fold = Some(g);
    inputs.comm_E_fold = Some(g.plus(g));
    let mut U = FoldedInstance::<E>::default(1);
    U.comm_W = g;
    U.T = n(6);
    inputs.U = Some(U);
    assert_eq!(published(inputs), expected);

    // The number, the first state, the digest and the next blinding do count.
    let mut inputs = first_inputs(5);
    inputs.i = n(1);
    inputs.zi = Some(vec![n(5)]);
    assert_ne!(published(inputs).0, expected.0);
    assert_ne!(published(first_inputs(6)).0, expected.0);
    let mut inputs = first_inputs(5);
    inputs.pp_digest = n(1);
    assert_ne!(published(inputs).0, expected.0);
    let mut inputs = first_inputs(5);
    inputs.r_next = n(10);
    assert_ne!(published(inputs).0, expected.0);
}

#[test]
fn an_offset_on_a_running_claim_is_not_satisfied() {
    let (pp, chain) = two_steps();
    let inputs = next_inputs(&pp, &chain).with_corrupt_t_lookup_at_index(0, n(1));
    assert!(!satisfied(&pp, inputs));
}

#[test]
fn an_offset_on_a_missing_table_is_refused() {
    let (pp, chain) = two_steps();
    let inputs = next_inputs(&pp, &chain).with_corrupt_t_lookup_at_index(1, n(1));
    let circuit = IdentityStepCircuit::new();
    let a = NeutronAugmentedCircuit::<E, IdentityStepCircuit>::new(Some(inputs), &circuit)
        .with_lookup_fold(1, &pp.shape_registry, 1);
    let mut cs = ConstraintSystem::<M31>::new();
    match a.synthesize(&mut cs) {
        Err(SynthesisError::Unsatisfiable(msg)) => {
            assert!(msg.contains("corrupt_t_lookup_at_index"), "{msg}")
        }
        _ => panic!("there is no second table"),
    }
}

#[test]
fn a_step_with_other_parameters_is_not_satisfied() {
    let (mut pp, chain) = two_steps();
    let inputs = next_inputs(&pp, &chain);
    pp.shape_registry = vec![pp.digest().plus(M31::one())];
    assert!(!satisfied(&pp, inputs));
}

#[test]
fn tables_need_a_registry_and_an_index() {
    let circuit = TrivialCircuit::<M31>::new();
    let registry = [M31::zero()];
    for (registry, n_bits, reason) in [
        (&registry[..0], 1, "shape_registry is empty"),
        (&registry[..], 0, "index_n_bits == 0"),
    ] {
        let a = NeutronAugmentedCircuit::<E, TrivialCircuit<M31>>::new(None, &circuit)
            .with_lookup_fold(1, registry, n_bits);
        let mut cs = ConstraintSystem::<M31>::new_shape();
        match a.synthesize(&mut cs) {
            Err(SynthesisError::Unsatisfiable(msg)) => assert!(msg.contains(reason), "{msg}"),
            _ => panic!("{reason}"),
        }
    }
}

#[test]
fn values_are_needed_where_they_are_recorded() {
    let circuit = TrivialCircuit::<M31>::new();
    let a = NeutronAugmentedCircuit::<E, TrivialCircuit<M31>>::new(None, &circuit);
    let mut cs = ConstraintSystem::<M31>::new();
    assert!(matches!(a.synthesize(&mut cs), Err(SynthesisError::AssignmentMissing)));
}

#[test]
fn a_running_instance_with_tables_needs_tables() {
    let circuit = TrivialCircuit::<M31>::new();
    let mut inputs = first_inputs(0);
    inputs.U = Some(FoldedInstance::default_with_lookup_k(1, 1));
    let a = NeutronAugmentedCircuit::<E, TrivialCircuit<M31>>::new(Some(inputs), &circuit);
    let mut cs = ConstraintSystem::<M31>::new();
    assert!(matches!(a.synthesize(&mut cs), Err(SynthesisError::Unsatisfiable(_))));
}

#[test]
fn the_payload_of_a_single_table_is_kept() {
    let g = Point::base();
    let payload = LookupPayloadPublic { comm_L: g, comm_ts: g.plus(g) };
    let inputs = first_inputs(0).with_lookup(
        Some(payload),
        Some(g),
        Some(g.scale(n(2))),
        Some(g.scale(n(3))),
        Some(g.scale(n(4))),
    );
    let kept = inputs.lookup_payload_pub.as_ref().expect("the payload is kept");
    assert_eq!((kept.comm_L, kept.comm_ts), (g, g.scale(n(2))));
    assert_eq!(inputs.comm_L_fold, Some(g));
    assert_eq!(inputs.comm_ts_fold, Some(g.scale(n(2))));
    assert_eq!(inputs.comm_inv_w_fold, Some(g.scale(n(3))));
    assert_eq!(inputs.comm_inv_t_fold, Some(g.scale(n(4))));
    assert!(inputs.public_bundles_multi_table.is_none());
}

#[test]
fn a_counting_step_sees_its_number() {
    let counter = StepCounter::new();
    let mut cs = ConstraintSystem::<M31>::new();
    let a = NeutronAugmentedCircuit::<E, StepCounter>::new(Some(first_inputs(5)), &counter);
    assert!(!a.fold_vanishes());
    let z = a.synthesize_aux(&mut cs).expect("the first step can be laid out");
    assert_eq!(z[0].get_value(), Some(n(5)));
    assert!(cs.is_satisfied());

    let mut inputs = first_inputs(5);
    inputs.i = n(3);
    inputs.zi = Some(vec![n(7)]);
    let a = NeutronAugmentedCircuit::<E, StepCounter>::new(Some(inputs), &counter);
    assert!(!a.fold_vanishes());
    let mut cs = ConstraintSystem::<M31>::new();
    let z = a.synthesize_aux(&mut cs).expect("the step can be laid out");
    assert_eq!(z[0].get_value(), Some(n(10)));
    // No earlier step has made the hash that this one is checked against.
    assert!(!cs.is_satisfied());
}

#[test]
fn a_step_that_ignores_its_number_is_added_alike_with_it() {
    let circuit = TrivialCircuit::<M31>::new();
    let mut both = vec![];
    for numbered in [false, true] {
        let a = NeutronAugmentedCircuit::<E, TrivialCircuit<M31>>::new(
            Some(first_inputs(5)),
            &circuit,
        );
        assert!(!a.fold_vanishes());
        let mut cs = ConstraintSystem::<M31>::new();
        let z = if numbered { a.synthesize_aux(&mut cs) } else { a.synthesize(&mut cs) }
            .expect("the step can be laid out");
        let m = cs.to_matrices().expect("the columns can be counted");
        both.push((
            z[0].get_value(),
            cs.is_satisfied(),
            cs.recorded_values(),
            (m.num_cons, m.num_vars, m.num_io),
            (m.A, m.B, m.C),
        ));
    }
    assert_eq!(both[0].0, Some(n(5)));
    assert!(both[0].1);
    assert!(both[0] == both[1]);
}

#[test]
fn a_digest_is_registered_at_its_position_only() {
    let registry = [n(11), n(12), n(13)];
    for (digest, index, n_bits, expected) in [
        (n(12), n(1), 2, true),
        (n(13), n(2), 2, true),
        (n(12), n(2), 2, false),
        (n(13), n(2), 1, false),
        (n(11), n(3), 2, false),
    ] {
        let mut cs = ConstraintSystem::<M31>::new();
        let d = AllocatedNum::alloc_value(&mut cs, digest);
        let i = AllocatedNum::alloc_value(&mut cs, index);
        let r: Vec<AllocatedNum<M31>> =
            registry.iter().map(|x| AllocatedNum::alloc_value(&mut cs, *x)).collect();
        assert_pp_digest_matches_registry::<E>(&mut cs, &d, &i, &r, n_bits);
        assert_eq!(cs.is_satisfied(), expected, "{digest:?} at {index:?} with {n_bits} bits");
    }
}

#[test]
fn a_chain_needs_a_bundle_for_each_table() {
    let (pp, mut chain) = two_steps();
    let circuit = IdentityStepCircuit::new();
    let res = chain.advance(&pp, &circuit, &vec![], n(1), n(2), n(3));
    assert_eq!(
        res,
        Err(NovaError::ProofVerifyError {
            reason: "a step needs one bundle per table".to_string()
        })
    );
    assert_eq!(chain.i, 2);
}

#[test]
fn a_chain_needs_a_state_of_its_width() {
    let (pp, _) = two_steps();
    let res = Chain::new(&pp, &IdentityStepCircuit::new(), &[]);
    assert!(matches!(res, Err(NovaError::InvalidInitialInputLength)));
}

#[test]
fn a_seeded_stream_is_that_of_chacha20() {
    let seed = ChaCha20Rng::seed_from_u64(77).get_seed();
    let mut rng = SeededRng::new(seed);
    let mut direct = ChaCha20Rng::from_seed(seed);
    for _ in 0..40 {
        assert_eq!(rng.draw(), direct.next_u64());
    }
    // A scalar takes eight draws, the first one leading.
    let draws: Vec<u64> = (0..8).map(|_| direct.next_u64()).collect();
    let mut expected = M31::zero();
    let two_to_64 = n(1 << 32).times(n(1 << 32));
    for d in draws.iter() {
        expected = expected.times(two_to_64).plus(n(*d));
    }
    assert_eq!(scalar_from_draws::<M31>(&draws), expected);
    assert_eq!(rng.scalar::<M31>(), expected);
}

#[test]
fn the_operating_system_provides_scalars() {
    let drawn: Vec<M31> = (0..16).map(|_| random_scalar().expect("random numbers")).collect();
    assert!(drawn.iter().any(|x| *x != drawn[0]));
}

#[test]
fn the_field_has_inverses() {
    for x in [1u64, 2, 3, 46341, 2147483646] {
        assert_eq!(n(x).times(n(x).invert().unwrap()), M31::one());
    }
    assert_eq!(M31::zero().invert(), None);
    assert_eq!(M31::new(2147483647), M31::zero());
    assert_eq!(n(2147483646).plus(n(2)), M31::one());
    assert_eq!(n(1).minus(n(2)), n(2147483646));
}
