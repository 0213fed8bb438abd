//! Folded instances inside of a constraint system, and the fold of lookups in several tables.
#![allow(non_snake_case)]

use neutron::bundle::{LookupPayload, PerTableBundle};
use neutron::circuit::r1cs::AllocatedNonnativeR1CSInstance;
use neutron::circuit::relation::AllocatedFoldedInstance;
use neutron::circuit::{NeutronAugmentedCircuit, NeutronAugmentedCircuitInputs};
use neutron::columns::MultiColumnLookupTable;
use neutron::commitment::CommitmentKey;
use neutron::engine::{Engine, Group, RO2Circuit, NUM_HASH_BITS, RO2};
use neutron::fold_prover::FoldOutput;
use neutron::frontend::{AllocatedNum, ConstraintSystem};
use neutron::gadgets::{alloc_num_equals, Boolean};
use neutron::point::AllocatedNonnativePoint;
use neutron::powers::{power_of, powers_of};
use neutron::public_params::random_key;
use neutron::random::SeededRng;
use neutron::reference::{Exponent, ReferenceEngine};
use neutron::relation::{
    FoldedInstance, LookupPayloadPublicMultiTable, LookupRunningWitness, R1CSInstance, NIFS,
};
use neutron::step_circuit::NonTrivialCircuit;
use neutron::structure::{FoldedWitness, R1CSShape, R1CSWitness, Structure};
use neutron::{NovaError, PrimeField, SynthesisError, M31};
use rand_chacha::rand_core::SeedableRng;
use rand_chacha::ChaCha20Rng;

type E = ReferenceEngine<M31>;
type Point = Exponent<M31>;

const TABLE_SIZE: usize = 64;
const SIDE: usize = 8;

fn seeded(seed: u64) -> SeededRng {
    SeededRng::new(ChaCha20Rng::seed_from_u64(seed).get_seed())
}

fn n(x: u64) -> M31 {
    M31::from_u64(x)
}

fn native_absorb_squeeze(U: &FoldedInstance<E>) -> M31 {
    let mut ro = RO2::<E>::new();
    U.absorb_in_ro2(&mut ro);
    ro.squeeze(NUM_HASH_BITS)
}

fn circuit_absorb_squeeze(U: &FoldedInstance<E>) -> (M31, bool) {
    let mut cs = ConstraintSystem::<M31>::new();
    let k = U.T_lookup.as_ref().map_or(0, |t| t.len());
    let a = AllocatedFoldedInstance::<E>::alloc_with_k_hint(&mut cs, Some(U), k)
        .expect("the instance can be laid out");
    let mut ro = RO2Circuit::<E>::new();
    a.absorb_in_ro(&mut cs, &mut ro).expect("the instance can be taken in");
    let h = ro.squeeze(&mut cs, NUM_HASH_BITS);
    (h.get_value().expect("the values are recorded"), cs.is_satisfied())
}

fn same_instance(a: &FoldedInstance<E>, b: &FoldedInstance<E>) -> bool {
    a.comm_W == b.comm_W
        && a.comm_E == b.comm_E
        && a.T == b.T
        && a.u == b.u
        && a.X == b.X
        && a.comm_L == b.comm_L
        && a.comm_ts == b.comm_ts
        && a.T_lookup == b.T_lookup
}

/// The constraints of the augmented circuit of a step, a key for them, and steps that meet them.
struct Fixture {
    step_circuit: NonTrivialCircuit<M31>,
    structure: Structure<E>,
    ck: CommitmentKey<E>,
    pp_digest: M31,
}

impl Fixture {
    fn new() -> Self {
        let step_circuit = NonTrivialCircuit::<M31>::new(32);
        let mut cs = ConstraintSystem::<M31>::new_shape();
        NeutronAugmentedCircuit::<E, NonTrivialCircuit<M31>>::new(None, &step_circuit)
            .synthesize(&mut cs)
            .expect("the augmented circuit can be laid out");
        let m = cs.to_matrices().expect("the columns can be counted");
        assert_eq!(m.num_io, 1, "the augmented circuit has a single public value");
        let shape = R1CSShape::<E>::new(m.num_cons, m.num_vars, m.num_io, m.A, m.B, m.C)
            .expect("the entries lie within the dimensions");
        let structure = Structure::new(&shape);
        let size =
            structure.S.num_vars.max(structure.S.num_cons).max(structure.left + structure.right);
        let ck = random_key(size.max(TABLE_SIZE)).expect("a random key");
        Fixture { step_circuit, structure, ck, pp_digest: M31::zero() }
    }

    /// The first step, told apart by the randomness that it hands on.
    fn make_r1cs(&self, seed: u64) -> (R1CSInstance<E>, R1CSWitness<E>) {
        let inputs = NeutronAugmentedCircuitInputs::<E>::new(
            self.pp_digest,
            M31::zero(),
            vec![M31::zero()],
            None,
            None,
            None,
            n(seed),
            None,
            None,
            None,
            None,
        );
        let circuit = NeutronAugmentedCircuit::<E, NonTrivialCircuit<M31>>::new(
            Some(inputs),
            &self.step_circuit,
        );
        assert!(!circuit.fold_vanishes());
        let mut cs = ConstraintSystem::<M31>::new();
        circuit.synthesize(&mut cs).expect("the step can be laid out");
        assert!(cs.is_satisfied());
        let (W, X) = cs.recorded_values();
        assert_eq!(W.len(), self.structure.S.num_vars);
        let r_W = n(seed + 100);
        let u = R1CSInstance { comm_W: self.ck.commit(&W, &r_W), X };
        let w = R1CSWitness { W, r_W };
        assert!(self.structure.S.is_sat(&self.ck, &u, &w).is_ok());
        (u, w)
    }

    fn commit(&self, v: &[M31]) -> Point {
        self.ck.commit(v, &M31::zero())
    }

    fn start(&self) -> (FoldedInstance<E>, FoldedWitness<E>) {
        let W = FoldedWitness {
            W: vec![M31::zero(); self.structure.S.num_vars],
            r_W: M31::zero(),
            E: vec![M31::zero(); self.structure.left + self.structure.right],
            r_E: M31::zero(),
        };
        (FoldedInstance::default(1), W)
    }

    fn bundle(
        &self,
        table_id: u64,
        addr: Vec<M31>,
        columns: Vec<Vec<M31>>,
        multiplicities: Vec<M31>,
        eqs: (Vec<M31>, Vec<M31>, Vec<M31>, Vec<M31>),
        running_lw: LookupRunningWitness<E>,
    ) -> PerTableBundle<E> {
        PerTableBundle {
            table_id,
            payload: LookupPayload {
                comm_L: self.commit(&addr),
                comm_ts: self.commit(&multiplicities),
                comm_inv_w: Point::identity(),
                comm_inv_t: Point::identity(),
                T2_lookup: M31::zero(),
                comm_values: columns.iter().map(|c| self.commit(c)).collect(),
            },
            fresh_witness_address: addr,
            fresh_witness_value_columns: columns,
            fresh_multiplicities: multiplicities,
            fresh_eq_w_left: eqs.0,
            fresh_eq_w_right: eqs.1,
            fresh_eq_t_left: eqs.2,
            fresh_eq_t_right: eqs.3,
            running_lw,
        }
    }

    /// Folds with the prover, and has the verifier fold the same.
    #[allow(clippy::too_many_arguments)]
    fn fold(
        &self,
        U: &FoldedInstance<E>,
        W: &FoldedWitness<E>,
        u: &R1CSInstance<E>,
        w: &R1CSWitness<E>,
        bundles: &Vec<PerTableBundle<E>>,
        tables: &Vec<MultiColumnLookupTable<E>>,
        r_E: M31,
    ) -> FoldOutput<E> {
        let public = public_side(bundles);
        let out = NIFS::<E>::prove_with_multi_table_lookup(
            &self.ck,
            &self.structure,
            self.pp_digest,
            U,
            W,
            u,
            w,
            bundles,
            tables,
            &public,
            r_E,
        )
        .expect("the prover folds");
        let verified = out
            .nifs
            .verify_with_multi_table_lookup(self.pp_digest, U, u, &public)
            .expect("the verifier folds");
        assert!(same_instance(&verified, &out.U), "prover and verifier agree on the folded U");
        out
    }

    fn table(&self, table_id: u64, columns: Vec<Vec<M31>>) -> MultiColumnLookupTable<E> {
        MultiColumnLookupTable {
            table_id,
            size: TABLE_SIZE,
            value_commitments: columns.iter().map(|c| self.commit(c)).collect(),
            columns,
        }
    }
}

fn public_side(bundles: &[PerTableBundle<E>]) -> Vec<LookupPayloadPublicMultiTable<E>> {
    bundles
        .iter()
        .map(|b| LookupPayloadPublicMultiTable {
            table_id: b.table_id,
            comm_L: b.payload.comm_L,
            comm_values: b.payload.comm_values.clone(),
            comm_ts: b.payload.comm_ts,
        })
        .collect()
}

fn mk_eqs(rng: &mut SeededRng) -> (Vec<M31>, Vec<M31>, Vec<M31>, Vec<M31>) {
    let tau_w: M31 = rng.scalar();
    let tau_t: M31 = rng.scalar();
    (
        powers_of(tau_w, SIDE),
        powers_of(power_of(tau_w, SIDE), SIDE),
        powers_of(tau_t, SIDE),
        powers_of(power_of(tau_t, SIDE), SIDE),
    )
}

fn mk_running_lw() -> LookupRunningWitness<E> {
    let zeros = || vec![M31::zero(); TABLE_SIZE];
    let side = || vec![M31::zero(); SIDE];
    LookupRunningWitness {
        witness: zeros(),
        inv_w: zeros(),
        table: zeros(),
        multiplicities: zeros(),
        inv_t: zeros(),
        eq_w_left: side(),
        eq_w_right: side(),
        eq_t_left: side(),
        eq_t_right: side(),
    }
}

/// Addresses, values and multiplicities of queries; what is left over asks for entry zero.
fn queries(table: &[M31], indices: &[usize]) -> (Vec<M31>, Vec<M31>, Vec<M31>) {
    let mut addr = vec![M31::zero(); TABLE_SIZE];
    let mut values = vec![table[0]; TABLE_SIZE];
    let mut multiplicities = vec![M31::zero(); TABLE_SIZE];
    for (i, &idx) in indices.iter().enumerate() {
        addr[i] = n(idx as u64);
        values[i] = table[idx];
        multiplicities[idx] = multiplicities[idx].plus(M31::one());
    }
    multiplicities[0] = multiplicities[0].plus(n((TABLE_SIZE - indices.len()) as u64));
    (addr, values, multiplicities)
}

#[test]
fn m_gh5_0_stage0_absorb_in_ro_byte_equivalence_at_fold_depth_1_and_2() {
    let mut rng = seeded(0xC1BE_5BAD_C0DE_0050);
    let f = Fixture::new();
    let t1_col0: Vec<M31> = rng.scalars(TABLE_SIZE);
    let t2_col0: Vec<M31> = rng.scalars(TABLE_SIZE);
    let tables = vec![f.table(0, vec![t1_col0.clone()]), f.table(1, vec![t2_col0.clone()])];
    let (u_step1, w_step1) = f.make_r1cs(2);
    let (u_step2, w_step2) = f.make_r1cs(3);

    let mut bundles = |lws: Vec<LookupRunningWitness<E>>, q1: &[usize], q2: &[usize]| {
        let mut lws = lws.into_iter();
        let (wa_1, wv_1, m_1) = queries(&t1_col0, q1);
        let (wa_2, wv_2, m_2) = queries(&t2_col0, q2);
        let eqs_1 = mk_eqs(&mut rng);
        let eqs_2 = mk_eqs(&mut rng);
        vec![
            f.bundle(0, wa_1, vec![wv_1], m_1, eqs_1, lws.next().unwrap()),
            f.bundle(1, wa_2, vec![wv_2], m_2, eqs_2, lws.next().unwrap()),
        ]
    };

    let (U, W) = f.start();
    let bundles_s1 =
        bundles(vec![mk_running_lw(), mk_running_lw()], &[1, 4, 9, 16], &[2, 5, 11, 22]);
    let s1 = f.fold(&U, &W, &u_step1, &w_step1, &bundles_s1, &tables, n(17));
    let t = s1.U.t_lookup().expect("the running claims are carried on");
    assert_eq!(t.len(), 2);
    assert_ne!(t[0], M31::zero(), "T_lookup[0] after step 1 must be non-zero");
    assert_ne!(t[1], M31::zero(), "T_lookup[1] after step 1 must be non-zero");
    let (h_circuit_s1, satisfied_s1) = circuit_absorb_squeeze(&s1.U);
    assert!(satisfied_s1, "step 1: the constraints of the absorption must be met");
    assert_eq!(native_absorb_squeeze(&s1.U), h_circuit_s1, "step 1: hashed alike");

    let lws = s1.lws.iter().map(|lw| lw.duplicate()).collect();
    let bundles_s2 = bundles(lws, &[3, 7, 13, 25], &[4, 8, 17, 33]);
    let s2 = f.fold(&s1.U, &s1.W, &u_step2, &w_step2, &bundles_s2, &tables, n(19));
    let t = s2.U.t_lookup().expect("the running claims are carried on");
    assert_eq!(t.len(), 2);
    assert_ne!(t[0], M31::zero(), "T_lookup[0] after step 2 must be non-zero");
    assert_ne!(t[1], M31::zero(), "T_lookup[1] after step 2 must be non-zero");
    let (h_circuit_s2, satisfied_s2) = circuit_absorb_squeeze(&s2.U);
    assert!(satisfied_s2, "step 2: the constraints of the absorption must be met");
    assert_eq!(native_absorb_squeeze(&s2.U), h_circuit_s2, "step 2: hashed alike");

    // The message carries the folded commitments of the tables.
    let hint_L = s1.nifs.comm_L_fold_per_table.as_ref().expect("populated");
    let hint_ts = s1.nifs.comm_ts_fold_per_table.as_ref().expect("populated");
    assert_eq!(hint_L.len(), 2);
    assert_eq!(Some(hint_L), s1.U.comm_L.as_ref());
    assert_eq!(Some(hint_ts), s1.U.comm_ts.as_ref());
    assert!(hint_L.iter().any(|c| *c != Point::identity()), "the commitments must not be trivial");
    assert_eq!(s2.nifs.comm_L_fold_per_table, s2.U.comm_L);
    assert_eq!(s2.nifs.comm_ts_fold_per_table, s2.U.comm_ts);
    assert_eq!(s2.U.comm_L.as_ref().map(|v| v.len()), Some(2));

    // What was folded is satisfied, and the commitments are those of the folded lookups.
    for s in [&s1, &s2] {
        assert!(f.structure.is_sat(&f.ck, &s.U, &s.W).is_ok());
        for j in 0..2 {
            assert_eq!(s.U.comm_L.as_ref().unwrap()[j], f.commit(&s.lws[j].witness));
            assert_eq!(s.U.comm_ts.as_ref().unwrap()[j], f.commit(&s.lws[j].multiplicities));
        }
    }
}

fn bare_instance(X: Vec<M31>) -> FoldedInstance<E> {
    FoldedInstance {
        comm_W: Point::identity(),
        comm_E: Point::identity(),
        T: M31::zero(),
        u: M31::zero(),
        X,
        comm_L: None,
        comm_ts: None,
        comm_inv_w: None,
        comm_inv_t: None,
        T_lookup: None,
    }
}

#[test]
fn m_gh7_5_0b_path_alpha2_from_lookup_fold_output_overrides_with_hint_vecs() {
    let mut rng = seeded(0xC1BE_5B_C0DE_5050);
    let f = Fixture::new();
    let k = 2usize;
    let mut points = || -> Vec<Point> {
        (0..k)
            .map(|_| {
                let v: Vec<M31> = rng.scalars(8);
                f.commit(&v)
            })
            .collect()
    };
    let comm_L_hint = points();
    let comm_ts_hint = points();
    let comm_L_before = points();
    let comm_ts_before = points();
    for j in 0..k {
        assert_ne!(comm_L_hint[j], comm_L_before[j], "the two must differ");
        assert_ne!(comm_L_hint[j], Point::identity(), "the hint must not be trivial");
    }

    let mut before = bare_instance(vec![M31::zero()]);
    before.comm_L = Some(comm_L_before);
    before.comm_ts = Some(comm_ts_before);
    before.T_lookup = Some(vec![M31::zero(); k]);

    let mut cs = ConstraintSystem::<M31>::new();
    let u_fold = AllocatedFoldedInstance::<E>::alloc_with_k_hint(&mut cs, Some(&before), k)
        .expect("the instance can be laid out");
    let mut laid_out = |v: &[Point]| -> Vec<AllocatedNonnativePoint<E>> {
        v.iter().map(|g| AllocatedNonnativePoint::allocate(&mut cs, Some(g))).collect()
    };
    let comm_L_alloc = laid_out(&comm_L_hint);
    let comm_ts_alloc = laid_out(&comm_ts_hint);
    let t_out: Vec<AllocatedNum<M31>> =
        (0..k).map(|_| AllocatedNum::alloc_value(&mut cs, M31::zero())).collect();

    let result = AllocatedFoldedInstance::<E>::from_lookup_fold_output(
        u_fold,
        t_out,
        comm_L_alloc.clone(),
        comm_ts_alloc.clone(),
    );
    let result_L = result.comm_L_per_table.clone().expect("set");
    let result_ts = result.comm_ts_per_table.clone().expect("set");
    assert_eq!(result_L.len(), k);
    assert_eq!(result_ts.len(), k);
    for j in 0..k {
        assert_eq!(
            comm_L_alloc[j].x_limb().get_value().unwrap(),
            result_L[j].x_limb().get_value().unwrap(),
            "the hint must be handed on"
        );
        assert_eq!(
            comm_ts_alloc[j].x_limb().get_value().unwrap(),
            result_ts[j].x_limb().get_value().unwrap(),
            "the hint must be handed on"
        );
    }

    let mut after = bare_instance(vec![M31::zero()]);
    after.comm_L = Some(comm_L_hint);
    after.comm_ts = Some(comm_ts_hint);
    after.T_lookup = Some(vec![M31::zero(); k]);
    let h_native = native_absorb_squeeze(&after);
    let mut ro = RO2Circuit::<E>::new();
    result.absorb_in_ro(&mut cs, &mut ro).expect("the instance can be taken in");
    let h_circuit = ro.squeeze(&mut cs, NUM_HASH_BITS).get_value().expect("recorded");
    assert!(cs.is_satisfied());
    assert_eq!(h_native, h_circuit);
}

#[test]
fn m_gh5_0_stage0_absorb_in_ro_byte_equivalence_at_num_io_2() {
    let mut rng = seeded(0xC1BE_5BAD_C0DE_0B02);
    let x0: M31 = rng.scalar();
    let x1: M31 = rng.scalar();
    assert_ne!(x0, x1, "fixture: x0 and x1 must differ");
    assert_ne!(x0, M31::zero(), "fixture: x0 must be non-zero");
    assert_ne!(x1, M31::zero(), "fixture: x1 must be non-zero");
    let native_inst = bare_instance(vec![x0, x1]);
    let h_native = native_absorb_squeeze(&native_inst);
    let (h_circuit, satisfied) = circuit_absorb_squeeze(&native_inst);
    assert!(satisfied);
    assert_eq!(h_native, h_circuit);
}

#[test]
fn m_gh5_0_fold_rejects_x_arity_two() {
    let inst_x_len_two = bare_instance(vec![M31::zero(), M31::zero()]);
    let mut cs = ConstraintSystem::<M31>::new();
    let allocated = AllocatedFoldedInstance::<E>::allocate(&mut cs, Some(&inst_x_len_two))
        .expect("an instance with two public values can be laid out");
    assert_eq!(allocated.X.len(), 2);
    let U2 = AllocatedNonnativeR1CSInstance::<E>::allocate(&mut cs, None);
    let r_b = AllocatedNum::alloc_value(&mut cs, M31::zero());
    let T_out = AllocatedNum::alloc_value(&mut cs, M31::zero());
    let comm_W_fold = AllocatedNonnativePoint::<E>::default(&mut cs);
    let comm_E_fold = AllocatedNonnativePoint::<E>::default(&mut cs);
    let result = allocated.fold(&mut cs, &U2, &r_b, &T_out, &comm_W_fold, &comm_E_fold);
    match result {
        Err(SynthesisError::Unsatisfiable(msg)) => {
            assert!(msg.contains("self.X.len() != 1"), "{msg}");
            assert!(msg.contains("§1.6"), "{msg}");
        }
        Ok(_) => panic!("fold accepted two public values"),
        Err(other) => panic!("expected SynthesisError::Unsatisfiable; got {other:?}"),
    }
}

fn m_gh5_0_path_y_x_t_aliasing_binding_with<EngineForTest: Engine>() {
    let cases: [(usize, Option<usize>); 7] = [
        (1, None),
        (2, None),
        (1, Some(0)),
        (1, Some(1)),
        (2, Some(1)),
        (1, Some(2)),
        (2, Some(2)),
    ];
    for (num_io, k_opt) in cases {
        let mut cs = ConstraintSystem::<EngineForTest::Scalar>::new();
        let unew_base = match k_opt {
            None => AllocatedFoldedInstance::<EngineForTest>::default(&mut cs, num_io)
                .expect("the neutral instance can be laid out"),
            Some(k) => AllocatedFoldedInstance::<EngineForTest>::default_with_lookup_k(
                &mut cs, num_io, k,
            )
            .expect("the neutral instance can be laid out"),
        };
        for i in 0..num_io {
            assert_eq!(
                unew_base.X[i].get_variable(),
                unew_base.T.get_variable(),
                "X[{i}] must be the variable of T (num_io={num_io}, k={k_opt:?})"
            );
        }
        assert_eq!(
            unew_base.u.get_variable(),
            unew_base.T.get_variable(),
            "u must be the variable of T (num_io={num_io}, k={k_opt:?})"
        );
        assert!(cs.num_constraints() >= 1);
        if k_opt.is_some() {
            assert!(
                cs.num_constraints() >= 6,
                "got {} constraints (num_io={num_io}, k={k_opt:?})",
                cs.num_constraints()
            );
        }
        assert!(cs.is_satisfied());
        if let Some(k) = k_opt {
            if k > 0 {
                let t_lookup = unew_base.T_lookup_per_table.as_ref().expect("set");
                assert_eq!(t_lookup.len(), k);
                let v0 = t_lookup[0].get_variable();
                for t in t_lookup.iter() {
                    assert_eq!(t.get_variable(), v0, "all tables must share one variable");
                }
                assert_ne!(v0, unew_base.T.get_variable(), "which is not that of T");
            }
        }
    }
}

#[test]
fn m_gh5_0_path_y_x_t_aliasing_binding() {
    m_gh5_0_path_y_x_t_aliasing_binding_with::<E>();
}

const M_GH5_5_NUM_FOLD_STEPS: usize = 4;
const M_GH5_5_K_TABLES: usize = 2;
const M_GH5_5_T2_ABSENT_AT_STEP: [bool; M_GH5_5_NUM_FOLD_STEPS] = [true, false, false, true];
const M_GH5_5_SEED: u64 = 0xC1BE_5BAD_C0DE_0055;

fn random_indices(rng: &mut SeededRng) -> Vec<usize> {
    let count = ((rng.draw() as usize) % TABLE_SIZE) + 1;
    let mut pool: Vec<usize> = (0..TABLE_SIZE).collect();
    for i in (1..pool.len()).rev() {
        let j = (rng.draw() as usize) % (i + 1);
        pool.swap(i, j);
    }
    pool.truncate(count);
    pool
}

#[test]
fn m_gh5_5_fold_of_n_augmented_circuit_shape_differential() {
    let mut rng = seeded(M_GH5_5_SEED);
    let f = Fixture::new();
    let t1_col0: Vec<M31> = rng.scalars(TABLE_SIZE);
    let tables = vec![f.table(0, vec![t1_col0.clone()]), f.table(1, vec![])];
    let identity = vec![M31::zero(); TABLE_SIZE];

    let (mut running_U, mut running_W) = f.start();
    let mut running_lws: Vec<LookupRunningWitness<E>> =
        (0..M_GH5_5_K_TABLES).map(|_| mk_running_lw()).collect();
    let mut t_lookup_per_step: Vec<Vec<M31>> = Vec::new();

    for step in 0..M_GH5_5_NUM_FOLD_STEPS {
        let (wa_1, wv_1, m_1) = queries(&t1_col0, &random_indices(&mut rng));
        let eqs_1 = mk_eqs(&mut rng);
        let bundle_1 = f.bundle(0, wa_1, vec![wv_1], m_1, eqs_1, running_lws[0].duplicate());
        let (wa_2, m_2) = if M_GH5_5_T2_ABSENT_AT_STEP[step] {
            (vec![M31::zero(); TABLE_SIZE], vec![M31::zero(); TABLE_SIZE])
        } else {
            let (a, _, m) = queries(&identity, &random_indices(&mut rng));
            (a, m)
        };
        let eqs_2 = mk_eqs(&mut rng);
        let bundle_2 = f.bundle(1, wa_2, vec![], m_2, eqs_2, running_lws[1].duplicate());
        let (u_step, w_step) = f.make_r1cs((step as u64) + 2);
        let out = f.fold(
            &running_U,
            &running_W,
            &u_step,
            &w_step,
            &vec![bundle_1, bundle_2],
            &tables,
            n(23),
        );

        let t = out.U.t_lookup().expect("the running claims are carried on").clone();
        assert_eq!(t.len(), M_GH5_5_K_TABLES);
        assert!(t.iter().any(|s| *s != M31::zero()), "step {step}: some claim must be non-zero");
        t_lookup_per_step.push(t);

        let (h_circuit, satisfied) = circuit_absorb_squeeze(&out.U);
        assert!(satisfied, "step {step}: the constraints of the absorption must be met");
        assert_eq!(native_absorb_squeeze(&out.U), h_circuit, "step {step}: hashed alike");

        running_U = out.U;
        running_W = out.W;
        running_lws = out.lws;
    }
    assert_eq!(t_lookup_per_step.len(), M_GH5_5_NUM_FOLD_STEPS);
    let any_pair_t1_evolves = (1..M_GH5_5_NUM_FOLD_STEPS)
        .any(|s| t_lookup_per_step[s][0] != t_lookup_per_step[s - 1][0]);
    assert!(any_pair_t1_evolves, "{t_lookup_per_step:?}");
}

fn one_table(
    f: &Fixture,
    rng: &mut SeededRng,
) -> (Vec<PerTableBundle<E>>, Vec<MultiColumnLookupTable<E>>) {
    let column: Vec<M31> = rng.scalars(TABLE_SIZE);
    let (wa, wv, m) = queries(&column, &[1, 2, 3]);
    let eqs = mk_eqs(rng);
    let bundle = f.bundle(0, wa, vec![wv], m, eqs, mk_running_lw());
    (vec![bundle], vec![f.table(0, vec![column])])
}

#[test]
fn a_bundle_of_the_wrong_size_is_not_folded() {
    let mut rng = seeded(7);
    let f = Fixture::new();
    let (mut bundles, tables) = one_table(&f, &mut rng);
    bundles[0].fresh_multiplicities.pop();
    let (U, W) = f.start();
    let (u, w) = f.make_r1cs(5);
    let public = public_side(&bundles);
    let res = NIFS::<E>::prove_with_multi_table_lookup(
        &f.ck,
        &f.structure,
        f.pp_digest,
        &U,
        &W,
        &u,
        &w,
        &bundles,
        &tables,
        &public,
        n(1),
    );
    match res {
        Err(NovaError::ProofVerifyError { reason }) => {
            assert_eq!(reason, "fold: the vectors of a bundle do not fit its table")
        }
        _ => panic!("a bundle that does not fit must be refused"),
    }
}

#[test]
fn a_changed_lookup_polynomial_is_not_folded() {
    let mut rng = seeded(8);
    let f = Fixture::new();
    let (bundles, tables) = one_table(&f, &mut rng);
    let (U, W) = f.start();
    let (u, w) = f.make_r1cs(5);
    let mut out = f.fold(&U, &W, &u, &w, &bundles, &tables, n(1));
    let polys = out.nifs.poly_lookup.as_mut().unwrap();
    let mut evals: Vec<M31> = (0..6).map(|i| polys[0].evaluate(&n(i))).collect();
    evals[0] = evals[0].plus(M31::one());
    polys[0] = neutron::poly::UniPoly::from_evals(&evals);
    let res = out.nifs.verify_with_multi_table_lookup(f.pp_digest, &U, &u, &public_side(&bundles));
    assert!(matches!(res, Err(NovaError::InvalidSumcheckProof)));
}

#[test]
fn the_choice_of_an_instance_follows_the_condition() {
    let mut cs = ConstraintSystem::<M31>::new();
    let a = bare_instance(vec![n(3)]);
    let b = bare_instance(vec![n(4)]);
    let a = AllocatedFoldedInstance::<E>::allocate(&mut cs, Some(&a)).unwrap();
    let b = AllocatedFoldedInstance::<E>::allocate(&mut cs, Some(&b)).unwrap();
    let one = AllocatedNum::alloc_value(&mut cs, M31::one());
    let zero = AllocatedNum::alloc_value(&mut cs, M31::zero());
    let yes = Boolean::Is(alloc_num_equals(&mut cs, &one, &one));
    let no = Boolean::Is(alloc_num_equals(&mut cs, &one, &zero));
    let first = a.conditionally_select(&mut cs, &b, &yes).unwrap();
    let second = a.conditionally_select(&mut cs, &b, &no).unwrap();
    assert_eq!(first.X[0].get_value(), Some(n(3)));
    assert_eq!(second.X[0].get_value(), Some(n(4)));
    assert!(cs.is_satisfied());
}

#[test]
fn instances_of_different_shapes_are_not_chosen_between() {
    let mut cs = ConstraintSystem::<M31>::new();
    let a = bare_instance(vec![n(3)]);
    let b = bare_instance(vec![n(4), n(5)]);
    let a = AllocatedFoldedInstance::<E>::allocate(&mut cs, Some(&a)).unwrap();
    let b = AllocatedFoldedInstance::<E>::allocate(&mut cs, Some(&b)).unwrap();
    let c = AllocatedFoldedInstance::<E>::default_with_lookup_k(&mut cs, 1, 2).unwrap();
    let one = AllocatedNum::alloc_value(&mut cs, M31::one());
    let yes = Boolean::Is(alloc_num_equals(&mut cs, &one, &one));
    for other in [&b, &c] {
        let res = a.conditionally_select(&mut cs, other, &yes);
        assert!(matches!(res, Err(SynthesisError::Unsatisfiable(_))));
    }
}

#[test]
fn the_hint_counts_only_where_no_instance_is_given() {
    let U = bare_instance(vec![M31::zero()]);
    let mut cs = ConstraintSystem::<M31>::new();
    let a = AllocatedFoldedInstance::<E>::alloc_with_k_hint(&mut cs, Some(&U), 2)
        .expect("the instance can be laid out");
    assert!(a.T_lookup_per_table.is_none());
    assert!(a.comm_L_per_table.is_none());
    assert!(a.comm_ts_per_table.is_none());
    assert_eq!(a.X.len(), 1);

    let mut cs = ConstraintSystem::<M31>::new();
    let a = AllocatedFoldedInstance::<E>::alloc_with_k_hint(&mut cs, None, 2)
        .expect("the instance can be laid out");
    let claims = a.T_lookup_per_table.expect("there is a claim for each table");
    assert_eq!(claims.len(), 2);
    for t in &claims {
        assert_eq!(t.get_value(), Some(M31::zero()));
    }
    assert_eq!(a.comm_L_per_table.map(|v| v.len()), Some(2));
    assert_eq!(a.comm_ts_per_table.map(|v| v.len()), Some(2));

    let mut U = bare_instance(vec![M31::zero()]);
    U.T_lookup = Some(vec![n(4), n(5), n(6)]);
    let mut cs = ConstraintSystem::<M31>::new();
    let a = AllocatedFoldedInstance::<E>::alloc_with_k_hint(&mut cs, Some(&U), 2)
        .expect("the instance can be laid out");
    let claims = a.T_lookup_per_table.expect("the claims of the instance are kept");
    let claims: Vec<Option<M31>> = claims.iter().map(|t| t.get_value()).collect();
    assert_eq!(claims, vec![Some(n(4)), Some(n(5)), Some(n(6))]);
}
