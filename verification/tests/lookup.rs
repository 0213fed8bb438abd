//! The lookup argument inside of a constraint system, against the one outside of it.
#![allow(non_snake_case)]

use neutron::bundle::{LookupPayload, PerTableBundle};
use neutron::circuit::lookup::{
    AllocatedLookupNIFS, AllocatedLookupNIFSMultiTable, AllocatedLookupPayloadPublicMultiTable,
};
use neutron::circuit::nifs::AllocatedNIFS;
use neutron::circuit::r1cs::AllocatedNonnativeR1CSInstance;
use neutron::circuit::relation::AllocatedFoldedInstance;
use neutron::circuit::{NeutronAugmentedCircuit, NeutronAugmentedCircuitInputs};
use neutron::columns::MultiColumnLookupTable;
use neutron::commitment::CommitmentKey;
use neutron::engine::{Group, NUM_CHALLENGE_BITS, RO2};
use neutron::fold_prover::{grid_round, GridVectors};
use neutron::frontend::{AllocatedNum, ConstraintSystem};
use neutron::gadgets::alloc_zero;
use neutron::lookup_sumcheck::{lookup_running_claims_from, LookupSumcheckInstance};
use neutron::point::{absorb_point, AllocatedNonnativePoint};
use neutron::poly::UniPoly;
use neutron::powers::{power_of, powers_of};
use neutron::public_params::random_key;
use neutron::random::SeededRng;
use neutron::reference::{Exponent, ReferenceEngine};
use neutron::relation::{
    FoldedInstance, LookupPayloadPublicMultiTable, LookupRunningWitness, R1CSInstance, NIFS,
};
use neutron::step_circuit::{NonTrivialCircuit, StepCircuit, TrivialCircuit};
use neutron::structure::{
    full_vector_of, FoldedWitness, R1CSShape, R1CSWitness, Structure,
};
use neutron::{NovaError, PrimeField, SynthesisError, M31};
use rand_chacha::rand_core::SeedableRng;
use rand_chacha::ChaCha20Rng;

type E = ReferenceEngine<M31>;
type Point = Exponent<M31>;

const TABLE_SIZE: usize = 16;
const SIDE: usize = 4;

fn seeded(seed: u64) -> SeededRng {
    SeededRng::new(ChaCha20Rng::seed_from_u64(seed).get_seed())
}

fn n(x: u64) -> M31 {
    M31::from_u64(x)
}

/// Lays the circuit out on its own; the state after it is public.
fn direct(cs: &mut ConstraintSystem<M31>, z: M31, circuit: &NonTrivialCircuit<M31>) {
    let before = vec![AllocatedNum::alloc_value(cs, z)];
    let after = circuit.synthesize(cs, &before).expect("the circuit can be laid out");
    after[0].inputize(cs);
}

struct Fixture {
    structure: Structure<E>,
    ck: CommitmentKey<E>,
    U2: R1CSInstance<E>,
    W2: R1CSWitness<E>,
    U1: FoldedInstance<E>,
    W1: FoldedWitness<E>,
}

impl Fixture {
    fn new() -> Self {
        let circuit = NonTrivialCircuit::<M31>::new(32);
        let mut cs = ConstraintSystem::<M31>::new_shape();
        direct(&mut cs, M31::zero(), &circuit);
        let m = cs.to_matrices().expect("the columns can be counted");
        let shape = R1CSShape::<E>::new(m.num_cons, m.num_vars, m.num_io, m.A, m.B, m.C)
            .expect("the entries lie within the dimensions");
        let structure = Structure::<E>::new(&shape);
        let size =
            structure.S.num_vars.max(structure.S.num_cons).max(structure.left + structure.right);
        let ck: CommitmentKey<E> = random_key(size.max(TABLE_SIZE)).expect("a random key");
        let mut cs = ConstraintSystem::<M31>::new();
        direct(&mut cs, n(2), &circuit);
        assert!(cs.is_satisfied());
        let (W, X) = cs.recorded_values();
        let r_W = n(77);
        let U2 = R1CSInstance { comm_W: ck.commit(&W, &r_W), X };
        let W2 = R1CSWitness { W, r_W };
        assert!(structure.S.is_sat(&ck, &U2, &W2).is_ok());
        let W1 = FoldedWitness {
            W: vec![M31::zero(); structure.S.num_vars],
            r_W: M31::zero(),
            E: vec![M31::zero(); structure.left + structure.right],
            r_E: M31::zero(),
        };
        Fixture { structure, ck, U2, W2, U1: FoldedInstance::default(1), W1 }
    }

    fn commit(&self, v: &[M31]) -> Point {
        self.ck.commit(v, &M31::zero())
    }
}

fn eqs(rng: &mut SeededRng) -> (Vec<M31>, Vec<M31>) {
    let tau: M31 = rng.scalar();
    (powers_of(tau, SIDE), powers_of(power_of(tau, SIDE), SIDE))
}

fn mk_running_lw() -> LookupRunningWitness<E> {
    let zeros = || vec![M31::zero(); TABLE_SIZE];
    let side = || vec![M31::zero(); SIDE];
    LookupRunningWitness {
        witness: zeros(),
        inv_w: zeros(),
        table: zeros(),
        multiplicities: zeros(),
        inv_t: zeros(),
        eq_w_left: side(),
        eq_w_right: side(),
        eq_t_left: side(),
        eq_t_right: side(),
    }
}

/// Which entries are asked for, position by position, and how often each one is.
fn asked(query_indices: &[usize]) -> (Vec<usize>, Vec<M31>) {
    let mut indices = query_indices.to_vec();
    indices.resize(TABLE_SIZE, 0);
    let mut multiplicities = vec![M31::zero(); TABLE_SIZE];
    for &i in indices.iter() {
        multiplicities[i] = multiplicities[i].plus(M31::one());
    }
    (indices, multiplicities)
}

fn absorb_poly(ro: &mut RO2<E>, poly: &UniPoly<M31>) {
    for c in poly.coeffs().iter() {
        ro.absorb(*c);
    }
}

/// The challenges of a fold, drawn step by step as the message goes out.
fn replay(f: &Fixture, public: &[LookupPayloadPublicMultiTable<E>], nifs: &NIFS<E>) -> (M31, M31) {
    let mut ro = RO2::<E>::new();
    ro.absorb(M31::zero());
    absorb_point(&mut ro, &f.U2.comm_W);
    ro.absorb(f.U2.X[0]);
    for b in public {
        absorb_point(&mut ro, &b.comm_L);
        for cv in b.comm_values.iter() {
            absorb_point(&mut ro, cv);
        }
        absorb_point(&mut ro, &b.comm_ts);
    }
    let _tau = ro.squeeze(NUM_CHALLENGE_BITS);
    absorb_point(&mut ro, &nifs.comm_E);
    let rho = ro.squeeze(NUM_CHALLENGE_BITS);
    for b in public {
        if !b.comm_values.is_empty() {
            let _alpha = ro.squeeze(NUM_CHALLENGE_BITS);
        }
    }
    for _ in public {
        let _r_logup = ro.squeeze(NUM_CHALLENGE_BITS);
    }
    for c in nifs.comm_inv_w.as_ref().unwrap() {
        absorb_point(&mut ro, c);
    }
    for c in nifs.comm_inv_t.as_ref().unwrap() {
        absorb_point(&mut ro, c);
    }
    absorb_poly(&mut ro, &nifs.poly);
    for p in nifs.poly_lookup.as_ref().unwrap() {
        absorb_poly(&mut ro, p);
    }
    (rho, ro.squeeze(NUM_CHALLENGE_BITS))
}

struct LaidOut {
    pp_digest: AllocatedNum<M31>,
    U1: AllocatedFoldedInstance<E>,
    U2: AllocatedNonnativeR1CSInstance<E>,
    nifs: AllocatedNIFS<E>,
    comm_W_fold: AllocatedNonnativePoint<E>,
    comm_E_fold: AllocatedNonnativePoint<E>,
}

fn lay_out(cs: &mut ConstraintSystem<M31>, f: &Fixture, nifs: &NIFS<E>) -> LaidOut {
    LaidOut {
        pp_digest: AllocatedNum::alloc_value(cs, M31::zero()),
        U1: AllocatedFoldedInstance::<E>::allocate(cs, Some(&f.U1)).unwrap(),
        U2: AllocatedNonnativeR1CSInstance::<E>::allocate(cs, Some(&f.U2)),
        nifs: AllocatedNIFS::<E>::allocate(cs, Some(nifs), 5).unwrap(),
        comm_W_fold: AllocatedNonnativePoint::<E>::default(cs),
        comm_E_fold: AllocatedNonnativePoint::<E>::default(cs),
    }
}

#[test]
fn stage_g_in_circuit_verify_with_lookup_matches_native() {
    let mut rng = seeded(0xC1BE_57A6);
    let f = Fixture::new();
    let table: Vec<M31> = (0..TABLE_SIZE as u64).map(|i| n(i * 7 + 3)).collect();
    let (indices, multiplicities) = asked(&[0, 3, 7, 15]);
    let witness_pool: Vec<M31> = indices.iter().map(|&i| table[i]).collect();
    let comm_L = f.commit(&witness_pool);
    let comm_ts = f.commit(&multiplicities);
    let (eq_w_left, eq_w_right) = eqs(&mut rng);
    let (eq_t_left, eq_t_right) = eqs(&mut rng);

    // The prover's side of a fold with a single table of single values.
    let mut ro = RO2::<E>::new();
    ro.absorb(M31::zero());
    absorb_point(&mut ro, &f.U2.comm_W);
    ro.absorb(f.U2.X[0]);
    absorb_point(&mut ro, &comm_L);
    absorb_point(&mut ro, &comm_ts);
    let tau = ro.squeeze(NUM_CHALLENGE_BITS);
    let e_left = powers_of(tau, f.structure.left);
    let e_right = powers_of(power_of(tau, f.structure.left), f.structure.right);
    let weights: Vec<M31> = e_left.iter().chain(e_right.iter()).copied().collect();
    let comm_E = f.ck.commit(&weights, &n(31));
    absorb_point(&mut ro, &comm_E);
    let rho = ro.squeeze(NUM_CHALLENGE_BITS);
    let r_logup = ro.squeeze(NUM_CHALLENGE_BITS);
    let lw = mk_running_lw();
    let (inst, comm_inv_w, comm_inv_t) = LookupSumcheckInstance::<E>::new(
        &f.ck,
        &lw.witness,
        &lw.inv_w,
        &lw.table,
        &lw.multiplicities,
        &lw.inv_t,
        lw.eq_w_left.clone(),
        lw.eq_w_right.clone(),
        lw.eq_t_left.clone(),
        lw.eq_t_right.clone(),
        &witness_pool,
        &table,
        &multiplicities,
        eq_w_left,
        eq_w_right,
        eq_t_left,
        eq_t_right,
        r_logup,
    )
    .expect("the challenge meets no entry");
    let poly_lookup = inst.prove_step(&rho, &M31::zero());
    let (z1, z2) = (
        full_vector_of(&f.W1.W, f.U1.u, &f.U1.X),
        full_vector_of(&f.W2.W, M31::one(), &f.U2.X),
    );
    let zero_left = vec![M31::zero(); f.structure.left];
    let zero_right = vec![M31::zero(); f.structure.right];
    let poly = grid_round(
        &f.structure,
        &GridVectors { e_left: &zero_left, e_right: &zero_right, z: &z1 },
        &GridVectors { e_left: &e_left, e_right: &e_right, z: &z2 },
        rho,
        M31::zero(),
    );
    let nifs = NIFS::<E> {
        comm_E,
        poly,
        poly_lookup: Some(vec![poly_lookup]),
        comm_inv_w: Some(vec![comm_inv_w]),
        comm_inv_t: Some(vec![comm_inv_t]),
        comm_L_fold_per_table: Some(vec![comm_L]),
        comm_ts_fold_per_table: Some(vec![comm_ts]),
    };
    let public =
        vec![LookupPayloadPublicMultiTable { table_id: 0, comm_L, comm_values: vec![], comm_ts }];
    let verified = nifs
        .verify_with_multi_table_lookup(M31::zero(), &f.U1, &f.U2, &public)
        .expect("native verify must succeed");
    let (rho_replayed, r_b) = replay(&f, &public, &nifs);
    assert_eq!(rho, rho_replayed);
    let native_t_lookup_out = LookupSumcheckInstance::<E>::verify_step(
        &rho,
        &r_b,
        &nifs.poly_lookup.as_ref().unwrap()[0],
        &lookup_running_claims_from::<E>(&f.U1),
    )
    .expect("native verify_step must succeed on circuit-equivalent transcript");
    assert_eq!(verified.T_lookup, Some(vec![native_t_lookup_out]));

    let mut cs = ConstraintSystem::<M31>::new();
    let a = lay_out(&mut cs, &f, &nifs);
    let lookup = AllocatedLookupNIFS::<E>::allocate(&mut cs, Some(&nifs)).unwrap();
    let comm_L_pub = AllocatedNonnativePoint::<E>::allocate(&mut cs, Some(&comm_L));
    let comm_ts_pub = AllocatedNonnativePoint::<E>::allocate(&mut cs, Some(&comm_ts));
    let t_lookup_running = alloc_zero(&mut cs);
    let out = a
        .nifs
        .verify_with_lookup(
            &mut cs,
            &a.pp_digest,
            &a.U1,
            &a.U2,
            &lookup,
            &comm_L_pub,
            &comm_ts_pub,
            &t_lookup_running,
            &a.comm_W_fold,
            &a.comm_E_fold,
        )
        .expect("in-circuit verify_with_lookup synthesised cleanly");
    assert!(cs.is_satisfied());
    assert_eq!(
        out.T_lookup_out.get_value().expect("T_lookup_out witness must be assigned"),
        native_t_lookup_out
    );
}

fn bundle(
    f: &Fixture,
    rng: &mut SeededRng,
    table_id: u64,
    columns: &[Vec<M31>],
    query_indices: &[usize],
) -> (PerTableBundle<E>, MultiColumnLookupTable<E>) {
    let (indices, multiplicities) = asked(query_indices);
    let addr: Vec<M31> = indices.iter().map(|&i| n(i as u64)).collect();
    let values: Vec<Vec<M31>> =
        columns.iter().map(|c| indices.iter().map(|&i| c[i]).collect()).collect();
    let (eq_w_left, eq_w_right) = eqs(rng);
    let (eq_t_left, eq_t_right) = eqs(rng);
    let b = PerTableBundle {
        table_id,
        payload: LookupPayload {
            comm_L: f.commit(&addr),
            comm_ts: f.commit(&multiplicities),
            comm_inv_w: Point::identity(),
            comm_inv_t: Point::identity(),
            T2_lookup: M31::zero(),
            comm_values: values.iter().map(|v| f.commit(v)).collect(),
        },
        fresh_witness_address: addr,
        fresh_witness_value_columns: values,
        fresh_multiplicities: multiplicities,
        fresh_eq_w_left: eq_w_left,
        fresh_eq_w_right: eq_w_right,
        fresh_eq_t_left: eq_t_left,
        fresh_eq_t_right: eq_t_right,
        running_lw: mk_running_lw(),
    };
    let t = MultiColumnLookupTable {
        table_id,
        size: TABLE_SIZE,
        columns: columns.to_vec(),
        value_commitments: columns.iter().map(|c| f.commit(c)).collect(),
    };
    (b, t)
}

type Folded = (NIFS<E>, FoldedInstance<E>, Vec<LookupPayloadPublicMultiTable<E>>);

/// The message of a fold, which the verifier takes, and the public side of its lookups.
fn proved(
    f: &Fixture,
    bundles: &Vec<PerTableBundle<E>>,
    tables: &Vec<MultiColumnLookupTable<E>>,
) -> Folded {
    let public: Vec<LookupPayloadPublicMultiTable<E>> = bundles
        .iter()
        .map(|b| LookupPayloadPublicMultiTable {
            table_id: b.table_id,
            comm_L: b.payload.comm_L,
            comm_values: b.payload.comm_values.clone(),
            comm_ts: b.payload.comm_ts,
        })
        .collect();
    let out = NIFS::<E>::prove_with_multi_table_lookup(
        &f.ck,
        &f.structure,
        M31::zero(),
        &f.U1,
        &f.W1,
        &f.U2,
        &f.W2,
        bundles,
        tables,
        &public,
        n(31),
    )
    .expect("the prover folds");
    let verified = out
        .nifs
        .verify_with_multi_table_lookup(M31::zero(), &f.U1, &f.U2, &public)
        .expect("the verifier folds");
    (out.nifs, verified, public)
}

#[test]
fn stage_i_pri_in_circuit_verify_multi_column_matches_native() {
    let mut rng = seeded(0x1A55_E5A8);
    let f = Fixture::new();
    let t1: Vec<M31> = (0..TABLE_SIZE as u64).map(|i| n(i * 11 + 5)).collect();
    let t2: Vec<M31> = (0..TABLE_SIZE as u64).map(|i| n(i * 17 + 9)).collect();
    let (b, t) = bundle(&f, &mut rng, 0, &[t1, t2], &[0, 3, 7, 15]);
    let (nifs, verified, public) = proved(&f, &vec![b], &vec![t]);
    let (rho, r_b) = replay(&f, &public, &nifs);
    let native_t_lookup_out = LookupSumcheckInstance::<E>::verify_step(
        &rho,
        &r_b,
        &nifs.poly_lookup.as_ref().unwrap()[0],
        &lookup_running_claims_from::<E>(&f.U1),
    )
    .expect("native verify_step must succeed");
    assert_eq!(verified.T_lookup, Some(vec![native_t_lookup_out]));

    let mut cs = ConstraintSystem::<M31>::new();
    let a = lay_out(&mut cs, &f, &nifs);
    let lookup = AllocatedLookupNIFS::<E>::allocate(&mut cs, Some(&nifs)).unwrap();
    let comm_L_pub = AllocatedNonnativePoint::<E>::allocate(&mut cs, Some(&public[0].comm_L));
    let comm_ts_pub = AllocatedNonnativePoint::<E>::allocate(&mut cs, Some(&public[0].comm_ts));
    let comm_values_pub: Vec<AllocatedNonnativePoint<E>> = public[0]
        .comm_values
        .iter()
        .map(|c| AllocatedNonnativePoint::<E>::allocate(&mut cs, Some(c)))
        .collect();
    let t_lookup_running = alloc_zero(&mut cs);
    let out = a
        .nifs
        .verify_with_multi_column_lookup(
            &mut cs,
            &a.pp_digest,
            &a.U1,
            &a.U2,
            &lookup,
            &comm_L_pub,
            &comm_values_pub,
            &comm_ts_pub,
            &t_lookup_running,
            &a.comm_W_fold,
            &a.comm_E_fold,
        )
        .expect("in-circuit verify_with_multi_column_lookup must synthesise cleanly");
    assert!(cs.is_satisfied());
    assert_eq!(
        out.T_lookup_out.get_value().expect("T_lookup_out witness must be assigned"),
        native_t_lookup_out
    );
}

#[test]
fn a_table_without_columns_is_verified_as_a_plain_lookup() {
    let mut rng = seeded(0x1A55);
    let f = Fixture::new();
    let (b, t) = bundle(&f, &mut rng, 0, &[], &[0, 3, 7, 15]);
    let (nifs, verified, public) = proved(&f, &vec![b], &vec![t]);
    let expected = verified.T_lookup.clone().unwrap()[0];
    let mut counts = vec![];
    for way in 0..3 {
        let mut cs = ConstraintSystem::<M31>::new();
        let a = lay_out(&mut cs, &f, &nifs);
        let comm_L = AllocatedNonnativePoint::<E>::allocate(&mut cs, Some(&public[0].comm_L));
        let comm_ts = AllocatedNonnativePoint::<E>::allocate(&mut cs, Some(&public[0].comm_ts));
        let running = alloc_zero(&mut cs);
        let (out, U) = if way == 2 {
            let (lookups, bundles, running) = lay_out_tables(&mut cs, &nifs, &public);
            let index = alloc_zero(&mut cs);
            let registry = vec![a.pp_digest];
            let o = a
                .nifs
                .verify_with_multi_table_lookup(
                    &mut cs,
                    &a.pp_digest,
                    &index,
                    &registry,
                    1,
                    &a.U1,
                    &a.U2,
                    &lookups,
                    &bundles,
                    &running,
                    &a.comm_W_fold,
                    &a.comm_E_fold,
                )
                .unwrap();
            (o.T_lookup_out_per_table[0], o.U_fold)
        } else {
            let lookup = AllocatedLookupNIFS::<E>::allocate(&mut cs, Some(&nifs)).unwrap();
            let o = if way == 0 {
                a.nifs.verify_with_lookup(
                    &mut cs,
                    &a.pp_digest,
                    &a.U1,
                    &a.U2,
                    &lookup,
                    &comm_L,
                    &comm_ts,
                    &running,
                    &a.comm_W_fold,
                    &a.comm_E_fold,
                )
            } else {
                a.nifs.verify_with_multi_column_lookup(
                    &mut cs,
                    &a.pp_digest,
                    &a.U1,
                    &a.U2,
                    &lookup,
                    &comm_L,
                    &vec![],
                    &comm_ts,
                    &running,
                    &a.comm_W_fold,
                    &a.comm_E_fold,
                )
            }
            .unwrap();
            let m = cs.to_matrices().expect("the columns can be counted");
            counts.push((m.num_vars, m.num_cons));
            (o.T_lookup_out, o.U_fold)
        };
        assert!(cs.is_satisfied());
        assert_eq!(out.get_value(), Some(expected));
        assert_eq!(U.T.get_value(), Some(verified.T));
        assert_eq!(U.X[0].get_value(), Some(verified.X[0]));
    }
    assert_eq!(counts[0], counts[1]);
}

fn two_tables(f: &Fixture, seed: u64) -> (Vec<PerTableBundle<E>>, Vec<MultiColumnLookupTable<E>>) {
    let mut rng = seeded(seed);
    let t1_col0: Vec<M31> = rng.scalars(TABLE_SIZE);
    let t2_col0: Vec<M31> = rng.scalars(TABLE_SIZE);
    let (b1, t1) = bundle(f, &mut rng, 0, &[t1_col0], &[0, 3, 7, 15]);
    let (b2, t2) = bundle(f, &mut rng, 1, &[t2_col0], &[1, 5, 9, 14]);
    (vec![b1, b2], vec![t1, t2])
}

type MultiTable = (
    AllocatedLookupNIFSMultiTable<E>,
    Vec<AllocatedLookupPayloadPublicMultiTable<E>>,
    Vec<AllocatedNum<M31>>,
);

fn lay_out_tables(
    cs: &mut ConstraintSystem<M31>,
    nifs: &NIFS<E>,
    public: &[LookupPayloadPublicMultiTable<E>],
) -> MultiTable {
    let lookups =
        AllocatedLookupNIFSMultiTable::<E>::allocate(cs, Some(nifs), public.len()).unwrap();
    let bundles = public
        .iter()
        .map(|b| AllocatedLookupPayloadPublicMultiTable::<E>::allocate(cs, Some(b)).unwrap())
        .collect();
    let running = public.iter().map(|_| alloc_zero(cs)).collect();
    (lookups, bundles, running)
}

#[test]
fn m6_in_circuit_verify_multi_table_matches_native_k2() {
    let f = Fixture::new();
    let (bundles, tables) = two_tables(&f, 0x1A55_E5A6_C1B2_F006);
    let (nifs, verified, public) = proved(&f, &bundles, &tables);
    assert_eq!(nifs.comm_inv_w.as_ref().unwrap().len(), 2);
    assert_eq!(nifs.comm_inv_t.as_ref().unwrap().len(), 2);
    let polys = nifs.poly_lookup.as_ref().unwrap();
    assert_eq!(polys.len(), 2);
    let (rho, r_b) = replay(&f, &public, &nifs);
    assert!(f.U1.t_lookup().is_none());
    let native_t_lookup_out_per_table: Vec<M31> = (0..2)
        .map(|j| {
            LookupSumcheckInstance::<E>::verify_step(&rho, &r_b, &polys[j], &M31::zero())
                .expect("native verify_step per table must succeed")
        })
        .collect();
    assert_eq!(verified.T_lookup.as_ref(), Some(&native_t_lookup_out_per_table));

    let mut cs = ConstraintSystem::<M31>::new();
    let a = lay_out(&mut cs, &f, &nifs);
    let (lookups, bundles, running) = lay_out_tables(&mut cs, &nifs, &public);
    let index = alloc_zero(&mut cs);
    let registry = vec![a.pp_digest];
    let out = a
        .nifs
        .verify_with_multi_table_lookup(
            &mut cs,
            &a.pp_digest,
            &index,
            &registry,
            1,
            &a.U1,
            &a.U2,
            &lookups,
            &bundles,
            &running,
            &a.comm_W_fold,
            &a.comm_E_fold,
        )
        .expect("in-circuit multi-table verify must synthesise cleanly");
    assert!(cs.is_satisfied());
    let circuit: Vec<M31> =
        out.T_lookup_out_per_table.iter().map(|t| t.get_value().unwrap()).collect();
    assert_eq!(circuit, native_t_lookup_out_per_table);
}

#[test]
fn tables_that_do_not_pair_up_are_refused() {
    let f = Fixture::new();
    let (bundles, tables) = two_tables(&f, 3);
    let (nifs, _, public) = proved(&f, &bundles, &tables);
    let mut cs = ConstraintSystem::<M31>::new();
    let a = lay_out(&mut cs, &f, &nifs);
    let (lookups, bundles, mut running) = lay_out_tables(&mut cs, &nifs, &public);
    running.pop();
    let index = alloc_zero(&mut cs);
    let registry = vec![a.pp_digest];
    let res = a.nifs.verify_with_multi_table_lookup(
        &mut cs,
        &a.pp_digest,
        &index,
        &registry,
        1,
        &a.U1,
        &a.U2,
        &lookups,
        &bundles,
        &running,
        &a.comm_W_fold,
        &a.comm_E_fold,
    );
    match res {
        Err(SynthesisError::Unsatisfiable(msg)) => assert_eq!(
            msg,
            "verify_with_multi_table_lookup: per-table count mismatch (k=2, public_bundles=2, \
             t_lookup_running=1, comm_inv_w=2, comm_inv_t=2)"
        ),
        _ => panic!("a missing running claim must be refused"),
    }
}

#[test]
fn parameters_outside_of_the_registry_are_not_satisfied() {
    let f = Fixture::new();
    let (bundles, tables) = two_tables(&f, 5);
    let (nifs, _, public) = proved(&f, &bundles, &tables);
    let mut cs = ConstraintSystem::<M31>::new();
    let a = lay_out(&mut cs, &f, &nifs);
    let (lookups, bundles, running) = lay_out_tables(&mut cs, &nifs, &public);
    let index = alloc_zero(&mut cs);
    let registry = vec![AllocatedNum::alloc_value(&mut cs, n(9))];
    let res = a.nifs.verify_with_multi_table_lookup(
        &mut cs,
        &a.pp_digest,
        &index,
        &registry,
        1,
        &a.U1,
        &a.U2,
        &lookups,
        &bundles,
        &running,
        &a.comm_W_fold,
        &a.comm_E_fold,
    );
    assert!(res.is_ok());
    assert!(!cs.is_satisfied());
}

#[test]
fn a_corrupted_running_claim_is_not_satisfied() {
    let f = Fixture::new();
    let (bundles, tables) = two_tables(&f, 11);
    let (nifs, _, public) = proved(&f, &bundles, &tables);
    let mut cs = ConstraintSystem::<M31>::new();
    let a = lay_out(&mut cs, &f, &nifs);
    let (lookups, bundles, mut running) = lay_out_tables(&mut cs, &nifs, &public);
    running[1] = AllocatedNum::alloc_value(&mut cs, M31::one());
    let index = alloc_zero(&mut cs);
    let registry = vec![a.pp_digest];
    let res = a.nifs.verify_with_multi_table_lookup(
        &mut cs,
        &a.pp_digest,
        &index,
        &registry,
        1,
        &a.U1,
        &a.U2,
        &lookups,
        &bundles,
        &running,
        &a.comm_W_fold,
        &a.comm_E_fold,
    );
    assert!(res.is_ok());
    assert!(!cs.is_satisfied());
}

#[test]
fn a_lookup_outside_of_its_table_changes_the_carried_claim() {
    let f = Fixture::new();
    let (mut bundles, tables) = two_tables(&f, 13);
    let (nifs, _, public) = proved(&f, &bundles, &tables);
    bundles[0].fresh_witness_value_columns[0][2] =
        bundles[0].fresh_witness_value_columns[0][2].plus(M31::one());
    bundles[0].payload.comm_values[0] = f.commit(&bundles[0].fresh_witness_value_columns[0]);
    let (other, _, other_public) = proved(&f, &bundles, &tables);
    assert_ne!(public[0].comm_values, other_public[0].comm_values);
    assert_ne!(nifs.comm_inv_w.as_ref().unwrap()[0], other.comm_inv_w.as_ref().unwrap()[0]);
    // The message is bound to the lookups that it was made for.
    let res = nifs.verify_with_multi_table_lookup(M31::zero(), &f.U1, &f.U2, &other_public);
    match res {
        Ok(U) => assert_ne!(
            U.T_lookup,
            nifs.verify_with_multi_table_lookup(M31::zero(), &f.U1, &f.U2, &public)
                .unwrap()
                .T_lookup
        ),
        Err(e) => assert_eq!(e, NovaError::InvalidSumcheckProof),
    }
}

#[test]
fn test_neutron_recursive_circuit_pasta() {
    let tc = TrivialCircuit::<M31>::new();
    let circuit = NeutronAugmentedCircuit::<E, TrivialCircuit<M31>>::new(None, &tc);
    let mut cs = ConstraintSystem::<M31>::new_shape();
    circuit.synthesize(&mut cs).expect("the circuit can be laid out");
    let num_constraints = cs.num_constraints();
    assert_eq!(num_constraints, 567, "the constraints of the step with this engine");
    let m = cs.to_matrices().expect("the columns can be counted");
    assert_eq!(m.num_cons, num_constraints);
    assert_eq!(m.num_io, 1);
    let shape = R1CSShape::<E>::new(m.num_cons, m.num_vars, m.num_io, m.A, m.B, m.C)
        .expect("the entries lie within the dimensions");
    let ck: CommitmentKey<E> = random_key(shape.num_vars.max(shape.num_cons)).unwrap();

    let zero = M31::zero();
    let inputs = NeutronAugmentedCircuitInputs::<E>::new(
        zero,
        zero,
        vec![zero],
        None,
        None,
        None,
        zero,
        None,
        None,
        None,
        None,
    );
    let circuit = NeutronAugmentedCircuit::<E, TrivialCircuit<M31>>::new(Some(inputs), &tc);
    assert!(!circuit.fold_vanishes());
    let mut cs = ConstraintSystem::<M31>::new();
    circuit.synthesize(&mut cs).expect("the circuit can be laid out");
    assert_eq!(cs.num_constraints(), num_constraints, "the shape does not depend on the values");
    let (W, X) = cs.recorded_values();
    let inst = R1CSInstance { comm_W: ck.commit(&W, &n(5)), X };
    let witness = R1CSWitness { W, r_W: n(5) };
    assert!(shape.is_sat(&ck, &inst, &witness).is_ok());
}
