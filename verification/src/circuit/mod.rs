//! The augmented circuit: one step of a chain together with the verifier of the fold that takes
//! the previous step into the running instance.

use crate::engine::{identity_coordinates, Engine, Group, RO2Circuit, RoItem, NUM_HASH_BITS};
use crate::errors::SynthesisError;
use crate::field::{lemma_cong_diff, lemma_reduced, PrimeField};
use crate::frontend::{
    fresh, once, unit, AllocatedNum, ConstraintSystem, Layout, LinearCombination, Valuation,
    Variable,
};
use crate::gadgets::{
    alloc_num_equals, alloc_zero, conditionally_select_vec, enforce_equal, nums_at, nums_valid,
    AllocatedBit, Boolean,
};
use crate::point::{
    absorb_nums, absorbs, copy_nums, law_absorbs_apart, point_coordinates, AllocatedNonnativePoint,
};
use crate::poly::{padded_poly, vals};
use crate::relation::{
    default_folded, folded_inputs, law_inputs_determine, lemma_beginnings, or_empty, same_layout,
    FoldedInstance, FoldedVal, LookupPayloadPublic, LookupPayloadPublicMultiTable, R1CSInstance,
    R1CSVal, TableVal, NIFS,
};
use crate::shape_registry::registered;
use crate::step_circuit::{StepCircuit, StepCircuitWithAux};
use crate::text::{append_number, decimal};
use vstd::prelude::*;
use vstd::string::StringExecFns;

pub mod handover;
pub mod layout;
pub mod lookup;
pub mod nifs;
pub mod r1cs;
pub mod relation;

use layout::{
    lay_finish, lay_hash, lay_lookup_fold, lay_non_base, lay_prepare, lay_step, lookup_names,
    lookup_size, tables_size, witness_names, witness_size, PreparedNames, StepDims,
};
use lookup::{
    first_coordinates, fresh_table, lookup_degrees, lookup_poly, message_points, payload_val,
    polys_at, AllocatedLookupNIFSMultiTable, AllocatedLookupPayloadPublicMultiTable,
    LOOKUP_POLY_DEGREE,
};
use nifs::{
    count_mismatch, fold_checks, fold_eq, folds_to, law_fold_unique, multi_table_input, payloads_at,
    payloads_valid, plain_input, AllocatedNIFS, FoldInput,
};
use r1cs::{r1cs_val, AllocatedNonnativeR1CSInstance};
use relation::{
    default_names, hinted, lay_default, points_at, points_valid, refuse, refused_for, shape_of,
    AllocatedFoldedInstance, FOLD_ARITY, SELECT_COMM_L, SELECT_COMM_TS, SELECT_T_LOOKUP,
};

verus! {

/// The degree of the round polynomial of a fold.
pub const POLY_DEGREE: usize = 5;

/// What the prover puts into a step.
pub struct NeutronAugmentedCircuitInputs<E: Engine> {
    pub pp_digest: E::Scalar,
    pub i: E::Scalar,
    pub z0: Vec<E::Scalar>,
    pub zi: Option<Vec<E::Scalar>>,
    pub U: Option<FoldedInstance<E>>,
    pub ri: Option<E::Scalar>,
    pub r_next: E::Scalar,
    pub u: Option<R1CSInstance<E>>,
    pub nifs: Option<NIFS<E>>,
    pub comm_W_fold: Option<E::GE>,
    pub comm_E_fold: Option<E::GE>,
    /// The public side of the lookups in a single table.
    pub lookup_payload_pub: Option<LookupPayloadPublic<E>>,
    pub comm_L_fold: Option<E::GE>,
    pub comm_ts_fold: Option<E::GE>,
    pub comm_inv_w_fold: Option<E::GE>,
    pub comm_inv_t_fold: Option<E::GE>,
    /// The public side of the lookups, table by table.
    pub public_bundles_multi_table: Option<Vec<LookupPayloadPublicMultiTable<E>>>,
    /// The running claim of one table is taken up with an offset, so that the step must be
    /// rejected.
    pub corrupt_t_lookup_at_index: Option<(usize, E::Scalar)>,
}

impl<E: Engine> NeutronAugmentedCircuitInputs<E> {
    /// Inputs without lookups.
    pub fn new(
        pp_digest: E::Scalar,
        i: E::Scalar,
        z0: Vec<E::Scalar>,
        zi: Option<Vec<E::Scalar>>,
        U: Option<FoldedInstance<E>>,
        ri: Option<E::Scalar>,
        r_next: E::Scalar,
        u: Option<R1CSInstance<E>>,
        nifs: Option<NIFS<E>>,
        comm_W_fold: Option<E::GE>,
        comm_E_fold: Option<E::GE>,
    ) -> (r: Self)
        ensures
            r == (NeutronAugmentedCircuitInputs::<E> {
                pp_digest,
                i,
                z0,
                zi,
                U,
                ri,
                r_next,
                u,
                nifs,
                comm_W_fold,
                comm_E_fold,
                lookup_payload_pub: None,
                comm_L_fold: None,
                comm_ts_fold: None,
                comm_inv_w_fold: None,
                comm_inv_t_fold: None,
                public_bundles_multi_table: None,
                corrupt_t_lookup_at_index: None,
            }),
    {
        NeutronAugmentedCircuitInputs {
            pp_digest,
            i,
            z0,
            zi,
            U,
            ri,
            r_next,
            u,
            nifs,
            comm_W_fold,
            comm_E_fold,
            lookup_payload_pub: None,
            comm_L_fold: None,
            comm_ts_fold: None,
            comm_inv_w_fold: None,
            comm_inv_t_fold: None,
            public_bundles_multi_table: None,
            corrupt_t_lookup_at_index: None,
        }
    }

    /// The inputs with an offset on the running claim of one table.
    pub fn with_corrupt_t_lookup_at_index(self, idx: usize, offset: E::Scalar) -> (r: Self)
        ensures
            r == (NeutronAugmentedCircuitInputs::<E> {
                corrupt_t_lookup_at_index: Some((idx, offset)),
                ..self
            }),
    {
        let mut r = self;
        r.corrupt_t_lookup_at_index = Some((idx, offset));
        r
    }

    /// The inputs with the public side of the lookups, table by table.
    pub fn with_multi_table_bundles(
        self,
        bundles: Option<Vec<LookupPayloadPublicMultiTable<E>>>,
    ) -> (r: Self)
        ensures
            r == (NeutronAugmentedCircuitInputs::<E> {
                public_bundles_multi_table: bundles,
                ..self
            }),
    {
        let mut r = self;
        r.public_bundles_multi_table = bundles;
        r
    }

    /// The inputs with the public side of the lookups in a single table and the folded
    /// commitments.
    pub fn with_lookup(
        self,
        lookup_payload_pub: Option<LookupPayloadPublic<E>>,
        comm_L_fold: Option<E::GE>,
        comm_ts_fold: Option<E::GE>,
        comm_inv_w_fold: Option<E::GE>,
        comm_inv_t_fold: Option<E::GE>,
    ) -> (r: Self)
        ensures
            r == (NeutronAugmentedCircuitInputs::<E> {
                lookup_payload_pub,
                comm_L_fold,
                comm_ts_fold,
                comm_inv_w_fold,
                comm_inv_t_fold,
                ..self
            }),
    {
        let mut r = self;
        r.lookup_payload_pub = lookup_payload_pub;
        r.comm_L_fold = comm_L_fold;
        r.comm_ts_fold = comm_ts_fold;
        r.comm_inv_w_fold = comm_inv_w_fold;
        r.comm_inv_t_fold = comm_inv_t_fold;
        r
    }

    /// The inputs fit a step circuit: the states are wide enough, the instance to fold in has one
    /// public value and the polynomials are of the right degree.
    pub open spec fn fits(self, arity: nat) -> bool {
        &&& self.z0@.len() >= arity
        &&& self.zi is Some ==> self.zi->Some_0@.len() >= arity
        &&& self.u is Some ==> self.u->Some_0.X@.len() == 1
        &&& self.nifs is Some ==> self.nifs->Some_0.poly@.len() <= POLY_DEGREE + 1
            && lookup_degrees(Some(&self.nifs->Some_0))
    }
}

/// The values that a step works on.
pub struct StepVal {
    pub pp: int,
    pub i: int,
    pub z0: Seq<int>,
    pub zi: Seq<int>,
    pub U: FoldedVal,
    pub r_i: int,
    pub r_next: int,
    pub u: R1CSVal,
    pub comm_E: Seq<int>,
    pub poly: Seq<int>,
    pub comm_W_fold: Seq<int>,
    pub comm_E_fold: Seq<int>,
}

/// The values that a step with lookups works on besides.
pub struct LookupVal {
    pub registry: Seq<int>,
    pub tables: Seq<TableVal>,
    pub polys: Seq<Seq<int>>,
    pub inv_w: Seq<Seq<int>>,
    pub inv_t: Seq<Seq<int>>,
    pub comm_L_fold: Seq<Seq<int>>,
    pub comm_ts_fold: Seq<Seq<int>>,
}

/// The values of a step without lookups.
pub open spec fn no_lookups() -> LookupVal {
    LookupVal {
        registry: Seq::empty(),
        tables: Seq::empty(),
        polys: Seq::empty(),
        inv_w: Seq::empty(),
        inv_t: Seq::empty(),
        comm_L_fold: Seq::empty(),
        comm_ts_fold: Seq::empty(),
    }
}

/// What the fold of a step with `k` tables is verified on.
pub open spec fn step_input(v: StepVal, l: LookupVal, k: nat) -> FoldInput {
    FoldInput {
        pp: v.pp,
        U1: v.U,
        U2: v.u,
        comm_E: v.comm_E,
        poly: v.poly,
        tables: l.tables,
        polys: l.polys,
        inv_w: l.inv_w,
        inv_t: l.inv_t,
        running: if k > 0 {
            or_empty(v.U.T_lookup)
        } else {
            Seq::empty()
        },
    }
}

/// The numbers that the hash of a state takes in.
pub open spec fn state_inputs(
    pp: int,
    i: int,
    z0: Seq<int>,
    zi: Seq<int>,
    U: FoldedVal,
    r: int,
) -> Seq<int> {
    seq![pp, i] + z0 + zi + folded_inputs(U) + seq![r]
}

/// The hash by which a step hands its state on.
pub open spec fn state_hash<E: Engine>(
    pp: int,
    i: int,
    z0: Seq<int>,
    zi: Seq<int>,
    U: FoldedVal,
    r: int,
) -> int {
    E::challenge(absorbs(state_inputs(pp, i, z0, zi, U, r)), NUM_HASH_BITS)
}

/// The hash of a state is the challenge after a list that holds, one behind the other, the digest,
/// the number of the step, every number of the first state and of the current one, the running
/// instance and the number drawn for the hash.
pub proof fn law_state_hashed_whole<E: Engine>(
    pp: int,
    i: int,
    z0: Seq<int>,
    zi: Seq<int>,
    U: FoldedVal,
    r: int,
) -> (s: Seq<int>)
    ensures
        state_hash::<E>(pp, i, z0, zi, U, r) == E::challenge(absorbs(s), 250),
        s == state_inputs(pp, i, z0, zi, U, r),
        s.len() == 3 + z0.len() + zi.len() + folded_inputs(U).len(),
        s[0] == pp,
        s[1] == i,
        forall|k: int| 0 <= k < z0.len() ==> s[2 + k] == #[trigger] z0[k],
        forall|k: int| 0 <= k < zi.len() ==> s[2 + z0.len() + k] == #[trigger] zi[k],
        forall|k: int|
            0 <= k < folded_inputs(U).len() ==> s[2 + z0.len() + zi.len() + k]
                == #[trigger] folded_inputs(U)[k],
        s.last() == r,
{
    state_inputs(pp, i, z0, zi, U, r)
}

/// What the hash of a state takes in determines the state: for first states of one width, current
/// states of one width and running instances of one layout, lists that are equal come from equal
/// digests, numbers of steps, states, instances and drawn numbers.
pub proof fn law_state_inputs_determine(
    pp: int,
    i: int,
    z0: Seq<int>,
    zi: Seq<int>,
    U: FoldedVal,
    r: int,
    pp2: int,
    i2: int,
    z02: Seq<int>,
    zi2: Seq<int>,
    U2: FoldedVal,
    r2: int,
)
    requires
        z0.len() == z02.len(),
        zi.len() == zi2.len(),
        same_layout(U, U2),
        absorbs(state_inputs(pp, i, z0, zi, U, r)) == absorbs(
            state_inputs(pp2, i2, z02, zi2, U2, r2),
        ),
    ensures
        pp == pp2,
        i == i2,
        z0 == z02,
        zi == zi2,
        U == U2,
        r == r2,
{
    let (f, f2) = (folded_inputs(U), folded_inputs(U2));
    law_absorbs_apart(
        state_inputs(pp, i, z0, zi, U, r),
        state_inputs(pp2, i2, z02, zi2, U2, r2),
    );
    let (a, a2) = (seq![pp, i], seq![pp2, i2]);
    let (b, b2) = (a + z0, a2 + z02);
    let (c, c2) = (b + zi, b2 + zi2);
    assert((c + f + seq![r]).len() == (c2 + f2 + seq![r2]).len());
    assert((c + f).len() == (c2 + f2).len());
    lemma_beginnings(c + f, seq![r], c2 + f2, seq![r2]);
    assert(seq![r][0] == seq![r2][0]);
    lemma_beginnings(c, f, c2, f2);
    lemma_beginnings(b, zi, b2, zi2);
    lemma_beginnings(a, z0, a2, z02);
    assert(a[0] == a2[0] && a[1] == a2[1]);
    law_inputs_determine(U, U2);
}

/// What a step demands: the fold is verified, the digest is registered where there are tables,
/// and but for the first step the instance to fold in carries the hash of the state.
pub open spec fn step_checks<E: Engine>(v: StepVal, l: LookupVal, k: nat, n_bits: nat) -> bool {
    &&& fold_checks::<E>(step_input(v, l, k))
    &&& k > 0 ==> registered(E::Scalar::modulus(), v.pp, v.zi.last(), l.registry, n_bits)
    &&& v.i == 0 || v.u.X == state_hash::<E>(v.pp, v.i, v.z0, v.zi, v.U, v.r_i)
}

/// The number of tables as a default instance takes it.
pub open spec fn some_tables(k: nat) -> Option<nat> {
    if k > 0 {
        Some(k)
    } else {
        None
    }
}

/// A folded instance with the running data of the tables renewed, where there are tables.
pub open spec fn renewed(out: FoldedVal, t_outs: Seq<int>, l: LookupVal, k: nat) -> FoldedVal {
    if k > 0 {
        FoldedVal {
            T_lookup: Some(t_outs),
            comm_L: Some(l.comm_L_fold),
            comm_ts: Some(l.comm_ts_fold),
            ..out
        }
    } else {
        out
    }
}

/// The running instance after a fold.
pub open spec fn folded_into<E: Engine>(
    v: StepVal,
    l: LookupVal,
    k: nat,
    U_new: FoldedVal,
) -> bool {
    exists|out: FoldedVal, t_outs: Seq<int>| #[trigger]
        folds_to::<E>(step_input(v, l, k), v.comm_W_fold, v.comm_E_fold, out, t_outs) && U_new
            == renewed(out, t_outs, l, k)
}

/// The running instance after a step: the default one after the first step, else what the fold
/// yields.
pub open spec fn next_instance<E: Engine>(
    v: StepVal,
    l: LookupVal,
    k: nat,
    U_new: FoldedVal,
) -> bool {
    if v.i == 0 {
        U_new == default_folded(1, some_tables(k))
    } else {
        folded_into::<E>(v, l, k, U_new)
    }
}

/// The state that a step starts from.
pub open spec fn step_start(v: StepVal) -> Seq<int> {
    if v.i == 0 {
        v.z0
    } else {
        v.zi
    }
}

/// The hash of the state after a step.
pub open spec fn next_hash<E: Engine>(v: StepVal, z_next: Seq<int>, U_new: FoldedVal) -> int {
    state_hash::<E>(v.pp, (v.i + 1) % E::Scalar::modulus(), v.z0, z_next, U_new, v.r_next)
}

/// What a step hands on is unique where the equality polynomial does not vanish at the challenges
/// of its fold.
pub proof fn law_next_instance_unique<E: Engine>(
    v: StepVal,
    l: LookupVal,
    k: nat,
    U1: FoldedVal,
    U2: FoldedVal,
)
    requires
        v.i == 0 || fold_eq::<E>(step_input(v, l, k)) != 0,
        next_instance::<E>(v, l, k, U1),
        next_instance::<E>(v, l, k, U2),
    ensures
        U1 == U2,
{
    if v.i != 0 {
        let x = step_input(v, l, k);
        let (o1, t1) = choose|o: FoldedVal, t: Seq<int>| #[trigger]
            folds_to::<E>(x, v.comm_W_fold, v.comm_E_fold, o, t) && U1 == renewed(o, t, l, k);
        let (o2, t2) = choose|o: FoldedVal, t: Seq<int>| #[trigger]
            folds_to::<E>(x, v.comm_W_fold, v.comm_E_fold, o, t) && U2 == renewed(o, t, l, k);
        law_fold_unique::<E>(x, v.comm_W_fold, v.comm_E_fold, o1, t1, o2, t2);
    }
}

/// The first step of a chain forgets all that a step takes over from an earlier one: two first
/// steps that agree on the digest, the state the chain starts from and the next blinding value
/// start alike and, where the step leads to one state only, publish the same hash, whatever
/// running instances, instances, messages and lookups they are given.
pub proof fn law_first_step_forgets<E: Engine, SC: StepCircuit<E::Scalar>>(
    circuit: SC,
    k: nat,
    v1: StepVal,
    l1: LookupVal,
    U1: FoldedVal,
    z1: Seq<int>,
    v2: StepVal,
    l2: LookupVal,
    U2: FoldedVal,
    z2: Seq<int>,
)
    requires
        v1.i == 0,
        v2.i == 0,
        v1.pp == v2.pp,
        v1.z0 == v2.z0,
        v1.r_next == v2.r_next,
        next_instance::<E>(v1, l1, k, U1),
        next_instance::<E>(v2, l2, k, U2),
        circuit.step(step_start(v1), z1),
        circuit.step(step_start(v2), z2),
        forall|a: Seq<int>, b: Seq<int>|
            #![trigger circuit.step(v1.z0, a), circuit.step(v1.z0, b)]
            circuit.step(v1.z0, a) && circuit.step(v1.z0, b) ==> a == b,
    ensures
        step_start(v1) == step_start(v2),
        U1 == default_folded(1, some_tables(k)),
        U2 == U1,
        z2 == z1,
        next_hash::<E>(v1, z1, U1) == next_hash::<E>(v2, z2, U2),
{
    assert(circuit.step(v1.z0, z1) && circuit.step(v1.z0, z2));
}

/// Why a step cannot be added to a system.
pub enum Refusal {
    /// A value is needed that is not there.
    Missing,
    /// The inputs do not go together.
    Reason(Seq<char>),
}

/// The result is the error that the refusal stands for.
pub open spec fn refused_as<T>(r: Result<T, SynthesisError>, why: Refusal) -> bool {
    match why {
        Refusal::Missing => r == Err::<T, SynthesisError>(SynthesisError::AssignmentMissing),
        Refusal::Reason(s) => refused_for(r, s),
    }
}

/// The offset is asked for on an instance without running claims.
pub const CORRUPT_NONE: &'static str = "alloc_witness: corrupt_t_lookup_at_index is Some but U.T_lookup_per_table is None — knob requires lookup_fold_k > 0 and U with non-empty T_lookup";

/// The registry is missing.
pub const REGISTRY_EMPTY: &'static str = "synthesize_non_base_case_lookup_fold: shape_registry is empty under lookup_fold_k > 0; attach via NeutronAugmentedCircuit::with_lookup_fold(...)";

/// The width of the index is missing.
pub const INDEX_BITS_ZERO: &'static str = "synthesize_non_base_case_lookup_fold: index_n_bits == 0 under lookup_fold_k > 0; attach via NeutronAugmentedCircuit::with_lookup_fold(...)";

/// The running instance has no public value.
pub const U_X_EMPTY: &'static str = "synthesize_non_base_case_lookup_fold: U.X is empty (num_io == 0); augmented-circuit invariant requires num_io == 1";

/// The state has no place for the index.
pub const Z_EMPTY: &'static str = "synthesize_non_base_case_lookup_fold: z_i is empty (F_arity == 0); routing requires F_arity ≥ 1 with z_i[F_arity - 1] reserved for chunk_index";

/// The running instance has no running claims.
pub const U_T_LOOKUP_NONE: &'static str = "synthesize_non_base_case_lookup_fold: U.T_lookup_per_table is None under lookup_fold_k > 0; alloc_witness should populate via k-hint";

/// Says that the offset is asked for on a table that is not there.
pub open spec fn corrupt_bounds(idx: nat, len: nat) -> Seq<char> {
    "alloc_witness: corrupt_t_lookup_at_index idx="@ + decimal(idx)
        + " out of bounds for U.T_lookup_per_table.len()="@ + decimal(len)
}

fn write_corrupt_bounds(idx: usize, len: usize) -> (r: String)
    ensures
        r@ == corrupt_bounds(idx as nat, len as nat),
{
    let mut s = "alloc_witness: corrupt_t_lookup_at_index idx=".to_owned();
    append_number(&mut s, idx);
    s.append(" out of bounds for U.T_lookup_per_table.len()=");
    append_number(&mut s, len);
    s
}

/// One step of a chain with the verifier of the fold.
pub struct NeutronAugmentedCircuit<'a, E: Engine, SC: StepCircuit<E::Scalar>> {
    pub inputs: Option<NeutronAugmentedCircuitInputs<E>>,
    pub step_circuit: &'a SC,
    /// The digests that the public parameters may have, position by position.
    pub shape_registry: &'a [E::Scalar],
    /// The number of tables; zero for a step without lookups.
    pub lookup_fold_k: usize,
    /// The number of bits that a position is written with.
    pub index_n_bits: usize,
}

/// The allocated values of a step.
pub struct AugmentedWitness<E: Engine> {
    pub pp_digest: AllocatedNum<E::Scalar>,
    pub i: AllocatedNum<E::Scalar>,
    pub z_0: Vec<AllocatedNum<E::Scalar>>,
    pub z_i: Vec<AllocatedNum<E::Scalar>>,
    pub U: AllocatedFoldedInstance<E>,
    pub r_i: AllocatedNum<E::Scalar>,
    pub r_next: AllocatedNum<E::Scalar>,
    pub u: AllocatedNonnativeR1CSInstance<E>,
    pub nifs: AllocatedNIFS<E>,
    pub comm_W_fold: AllocatedNonnativePoint<E>,
    pub comm_E_fold: AllocatedNonnativePoint<E>,
}

impl<E: Engine> AugmentedWitness<E> {
    /// The values under a valuation.
    pub open spec fn at(self, e: Valuation) -> StepVal {
        StepVal {
            pp: self.pp_digest.at(e),
            i: self.i.at(e),
            z0: nums_at(self.z_0@, e),
            zi: nums_at(self.z_i@, e),
            U: self.U.at(e),
            r_i: self.r_i.at(e),
            r_next: self.r_next.at(e),
            u: self.u.at(e),
            comm_E: self.nifs.comm_E.at(e),
            poly: self.nifs.poly.at(e),
            comm_W_fold: self.comm_W_fold.at(e),
            comm_E_fold: self.comm_E_fold.at(e),
        }
    }

    /// The values belong to the system.
    pub open spec fn valid(self, cs: ConstraintSystem<E::Scalar>) -> bool {
        &&& cs.valid(self.pp_digest)
        &&& cs.valid(self.i)
        &&& nums_valid(cs, self.z_0@)
        &&& nums_valid(cs, self.z_i@)
        &&& self.U.valid(cs)
        &&& cs.valid(self.r_i)
        &&& cs.valid(self.r_next)
        &&& self.u.valid(cs)
        &&& self.nifs.valid(cs)
        &&& self.comm_W_fold.valid(cs)
        &&& self.comm_E_fold.valid(cs)
    }

    proof fn lemma_valid_grows(
        self,
        before: ConstraintSystem<E::Scalar>,
        later: ConstraintSystem<E::Scalar>,
    )
        requires
            before.grows(later),
            self.valid(before),
        ensures
            self.valid(later),
    {
        self.U.lemma_valid_grows(before, later);
    }
}

impl<'a, E: Engine, SC: StepCircuit<E::Scalar>> NeutronAugmentedCircuit<'a, E, SC> {
    /// A step without lookups.
    pub fn new(inputs: Option<NeutronAugmentedCircuitInputs<E>>, step_circuit: &'a SC) -> (r: Self)
        ensures
            r.inputs == inputs,
            r.step_circuit == step_circuit,
            r.shape_registry@.len() == 0,
            r.lookup_fold_k == 0,
            r.index_n_bits == 0,
    {
        NeutronAugmentedCircuit {
            inputs,
            step_circuit,
            shape_registry: &[],
            lookup_fold_k: 0,
            index_n_bits: 0,
        }
    }

    /// The step with lookups in `lookup_fold_k` tables.
    pub fn with_lookup_fold(
        self,
        lookup_fold_k: usize,
        shape_registry: &'a [E::Scalar],
        index_n_bits: usize,
    ) -> (r: Self)
        ensures
            r == (NeutronAugmentedCircuit::<'a, E, SC> {
                lookup_fold_k,
                shape_registry,
                index_n_bits,
                ..self
            }),
    {
        let mut r = self;
        r.lookup_fold_k = lookup_fold_k;
        r.shape_registry = shape_registry;
        r.index_n_bits = index_n_bits;
        r
    }

    /// The number of tables.
    pub open spec fn k(self) -> nat {
        self.lookup_fold_k as nat
    }

    /// The inputs fit the step circuit.
    pub open spec fn fits(self) -> bool {
        self.inputs is Some ==> self.inputs->Some_0.fits(self.step_circuit.width())
    }

    /// The running instance that is put in, if any.
    pub open spec fn running(self) -> Option<&'a FoldedInstance<E>> {
        match self.inputs {
            Some(x) => match x.U {
                Some(u) => Some(&u),
                None => None,
            },
            None => None,
        }
    }

    /// The message of the fold that is put in, if any.
    pub open spec fn message(self) -> Option<&'a NIFS<E>> {
        match self.inputs {
            Some(x) => match x.nifs {
                Some(n) => Some(&n),
                None => None,
            },
            None => None,
        }
    }

    /// The public side of the lookups in one table that is put in, if any.
    pub open spec fn payload(self, j: int) -> Option<&'a LookupPayloadPublicMultiTable<E>> {
        match self.inputs {
            Some(x) => match x.public_bundles_multi_table {
                Some(b) => if 0 <= j < b@.len() {
                    Some(&b@[j])
                } else {
                    None
                },
                None => None,
            },
            None => None,
        }
    }

    /// The running instance as it is taken up: the one that is put in, or a neutral one, with
    /// the offset on the running claim of one table.
    pub open spec fn taken_up(self) -> FoldedVal {
        let v = hinted(self.running(), self.k());
        match self.inputs->Some_0.corrupt_t_lookup_at_index {
            Some((idx, offset)) => FoldedVal {
                T_lookup: Some(
                    v.T_lookup->Some_0.update(
                        idx as int,
                        (v.T_lookup->Some_0[idx as int] + offset.val()) % E::Scalar::modulus(),
                    ),
                ),
                ..v
            },
            None => v,
        }
    }

    /// An offset on a running claim changes what is hashed of the running instance, so that the
    /// hash which the step is checked against is taken of other numbers.
    pub proof fn law_corruption_is_seen(self, idx: usize, offset: E::Scalar)
        requires
            self.inputs is Some,
            self.inputs->Some_0.corrupt_t_lookup_at_index == Some((idx, offset)),
            hinted(self.running(), self.k()).T_lookup is Some,
            idx < hinted(self.running(), self.k()).T_lookup->Some_0.len(),
            offset.val() != 0,
        ensures
            folded_inputs(self.taken_up()) != folded_inputs(hinted(self.running(), self.k())),
    {
        let p = E::Scalar::modulus();
        let v = hinted(self.running(), self.k());
        let w = self.taken_up();
        let t = v.T_lookup->Some_0[idx as int];
        let d = offset.val();
        E::Scalar::lemma_modulus();
        E::Scalar::lemma_val(offset);
        assert(0 <= t < p) by {
            match self.running() {
                Some(u) => {
                    if u.T_lookup is Some {
                        E::Scalar::lemma_val(u.T_lookup->Some_0@[idx as int]);
                    }
                },
                None => {},
            }
        }
        assert((t + d) % p != t) by {
            lemma_cong_diff(p, t + d, t);
            lemma_reduced(p, d);
            lemma_reduced(p, t);
        }
        assert(w.T_lookup->Some_0[idx as int] == (t + d) % p);
        if folded_inputs(w) == folded_inputs(v) {
            assert(same_layout(w, v));
            law_inputs_determine(w, v);
        }
    }

    /// The values that the inputs stand for.
    pub open spec fn step_val(self) -> StepVal {
        let x = self.inputs->Some_0;
        let n = self.step_circuit.width() as int;
        StepVal {
            pp: x.pp_digest.val(),
            i: x.i.val(),
            z0: vals(x.z0@.take(n)),
            zi: match x.zi {
                Some(z) => vals(z@.take(n)),
                None => Seq::new(n as nat, |j: int| 0int),
            },
            U: self.taken_up(),
            r_i: match x.ri {
                Some(r) => r.val(),
                None => 0,
            },
            r_next: x.r_next.val(),
            u: r1cs_val(
                match x.u {
                    Some(u) => Some(&u),
                    None => None,
                },
            ),
            comm_E: match x.nifs {
                Some(n) => E::GE::coordinates(n.comm_E.log()),
                None => identity_coordinates(),
            },
            poly: padded_poly(
                match x.nifs {
                    Some(n) => n.poly@,
                    None => Seq::empty(),
                },
                (POLY_DEGREE + 1) as nat,
            ),
            comm_W_fold: point_coordinates::<E>(
                match x.comm_W_fold {
                    Some(c) => Some(&c),
                    None => None,
                },
            ),
            comm_E_fold: point_coordinates::<E>(
                match x.comm_E_fold {
                    Some(c) => Some(&c),
                    None => None,
                },
            ),
        }
    }

    /// The values of the lookups that the inputs stand for.
    pub open spec fn lookup_val(self) -> LookupVal {
        let k = self.k();
        if k == 0 {
            no_lookups()
        } else {
            LookupVal {
                registry: vals(self.shape_registry@),
                tables: Seq::new(k, |j: int| payload_val(self.payload(j))),
                polys: Seq::new(
                    k,
                    |j: int|
                        padded_poly(
                            lookup_poly(self.message(), j as nat),
                            (LOOKUP_POLY_DEGREE + 1) as nat,
                        ),
                ),
                inv_w: first_coordinates::<E>(
                    message_points(self.message(), |n: NIFS<E>| n.comm_inv_w),
                    k,
                ),
                inv_t: first_coordinates::<E>(
                    message_points(self.message(), |n: NIFS<E>| n.comm_inv_t),
                    k,
                ),
                comm_L_fold: first_coordinates::<E>(
                    message_points(self.message(), |n: NIFS<E>| n.comm_L_fold_per_table),
                    k,
                ),
                comm_ts_fold: first_coordinates::<E>(
                    message_points(self.message(), |n: NIFS<E>| n.comm_ts_fold_per_table),
                    k,
                ),
            }
        }
    }

    /// Why the inputs cannot be taken up, if they cannot.
    pub open spec fn input_refusal(self, recording: bool) -> Option<Refusal> {
        match self.inputs {
            None => if recording {
                Some(Refusal::Missing)
            } else {
                None
            },
            Some(x) => match x.corrupt_t_lookup_at_index {
                None => None,
                Some((idx, _)) => match shape_of(hinted(self.running(), self.k())).T_lookup {
                    None => Some(Refusal::Reason(CORRUPT_NONE@)),
                    Some(len) => if idx >= len {
                        Some(Refusal::Reason(corrupt_bounds(idx as nat, len)))
                    } else if !recording {
                        Some(Refusal::Missing)
                    } else {
                        None
                    },
                },
            },
        }
    }

    /// Why the fold is not reached, if it is not.
    pub open spec fn early_refusal(self, recording: bool) -> Option<Refusal> {
        let shape = shape_of(hinted(self.running(), self.k()));
        let tables = shape.T_lookup->Some_0;
        if self.input_refusal(recording) is Some {
            self.input_refusal(recording)
        } else if self.k() == 0 {
            None
        } else if self.shape_registry@.len() == 0 {
            Some(Refusal::Reason(REGISTRY_EMPTY@))
        } else if self.index_n_bits == 0 {
            Some(Refusal::Reason(INDEX_BITS_ZERO@))
        } else if shape.X == 0 {
            Some(Refusal::Reason(U_X_EMPTY@))
        } else if self.step_circuit.width() == 0 {
            Some(Refusal::Reason(Z_EMPTY@))
        } else if shape.T_lookup is None {
            Some(Refusal::Reason(U_T_LOOKUP_NONE@))
        } else if tables != self.k() {
            Some(Refusal::Reason(count_mismatch(self.k(), self.k(), tables, self.k(), self.k())))
        } else {
            None
        }
    }

    /// Why the step circuit is not reached, if it is not.
    pub open spec fn refusal(self, recording: bool) -> Option<Refusal> {
        let shape = shape_of(hinted(self.running(), self.k()));
        if self.early_refusal(recording) is Some {
            self.early_refusal(recording)
        } else if shape.X != 1 {
            Some(Refusal::Reason(FOLD_ARITY@))
        } else if self.k() > 0 {
            None
        } else if shape.T_lookup is Some {
            Some(Refusal::Reason(SELECT_T_LOOKUP@))
        } else if shape.comm_L is Some {
            Some(Refusal::Reason(SELECT_COMM_L@))
        } else if shape.comm_ts is Some {
            Some(Refusal::Reason(SELECT_COMM_TS@))
        } else {
            None
        }
    }

    /// The dimensions of the step.
    pub open spec fn dims(self) -> StepDims {
        StepDims {
            k: self.k(),
            registry: self.shape_registry@.len(),
            n_bits: self.index_n_bits as nat,
            width: self.step_circuit.width(),
            U: shape_of(hinted(self.running(), self.k())),
            columns: Seq::new(
                self.k(),
                |j: int| payload_val(self.payload(j)).comm_values.len(),
            ),
            offset: match self.inputs {
                Some(x) => match x.corrupt_t_lookup_at_index {
                    Some((idx, _)) => Some(idx as nat),
                    None => None,
                },
                None => None,
            },
        }
    }

    /// The equality polynomial does not vanish at the challenges that the inputs lead to.
    pub open spec fn fold_defined(self) -> bool {
        fold_eq::<E>(step_input(self.step_val(), self.lookup_val(), self.k())) != 0
    }

    /// Takes up the inputs.
    fn alloc_witness(&self, cs: &mut ConstraintSystem<E::Scalar>) -> (r: Result<
        AugmentedWitness<E>,
        SynthesisError,
    >)
        requires
            old(cs).wf(),
            self.fits(),
        ensures
            r is Ok <==> self.input_refusal(old(cs).records()) is None,
            r is Err ==> refused_as(r, self.input_refusal(old(cs).records())->Some_0),
            r is Ok ==> {
                &&& old(cs).grows(*final(cs))
                &&& r->Ok_0.valid(*final(cs))
                &&& r->Ok_0.U.shape() == shape_of(hinted(self.running(), self.k()))
                &&& r->Ok_0.z_0@.len() == self.step_circuit.width()
                &&& r->Ok_0.z_i@.len() == self.step_circuit.width()
                &&& final(cs).satisfied() == old(cs).satisfied()
                &&& old(cs).records() ==> r->Ok_0.at(Valuation::Recorded) == self.step_val()
                &&& final(cs).layout() == old(cs).layout().more(witness_size(self.dims()))
                &&& r->Ok_0.at(Valuation::Names) == witness_names(
                    old(cs).layout().aux,
                    self.dims(),
                )
            },
    {
        let ghost before = *cs;
        let arity: usize = self.step_circuit.arity();
        if cs.is_recording() && self.inputs.is_none() {
            return Err(SynthesisError::AssignmentMissing);
        }
        let zero = E::Scalar::zero();
        let x = self.inputs.as_ref();
        let pp_digest = AllocatedNum::alloc_value(
            cs,
            match x {
                Some(x) => x.pp_digest,
                None => zero,
            },
        );
        let i = AllocatedNum::alloc_value(
            cs,
            match x {
                Some(x) => x.i,
                None => zero,
            },
        );
        let z_0 = alloc_state(
            cs,
            match x {
                Some(x) => Some(&x.z0),
                None => None,
            },
            arity,
        );
        let z_i = alloc_state(
            cs,
            match x {
                Some(x) => x.zi.as_ref(),
                None => None,
            },
            arity,
        );
        let ghost c1 = *cs;
        let running = match x {
            Some(x) => x.U.as_ref(),
            None => None,
        };
        let mut U = AllocatedFoldedInstance::alloc_with_k_hint(cs, running, self.lookup_fold_k)?;
        let ghost c2 = *cs;
        let ghost U0 = U;
        let knob = match x {
            Some(x) => x.corrupt_t_lookup_at_index,
            None => None,
        };
        if let Some((idx, offset)) = knob {
            match U.T_lookup_per_table {
                None => {
                    return refuse(CORRUPT_NONE);
                },
                Some(t) => {
                    let len: usize = t.len();
                    if idx >= len {
                        return Err(
                            SynthesisError::Unsatisfiable(write_corrupt_bounds(idx, len)),
                        );
                    }
                    if !cs.is_recording() {
                        return Err(SynthesisError::AssignmentMissing);
                    }
                    let ghost t0 = t@;
                    let mut t = t;
                    let honest = t[idx].value_or_zero(cs);
                    let corrupt = AllocatedNum::alloc_value(cs, honest.plus(offset));
                    t.set(idx, corrupt);
                    proof {
                        let n = Valuation::Names;
                        assert(nums_at(t@, n) =~= nums_at(t0, n).update(
                            idx as int,
                            corrupt.at(n),
                        ));
                        let e = Valuation::Recorded;
                        assert(nums_at(t@, e) =~= nums_at(t0, e).update(
                            idx as int,
                            (nums_at(t0, e)[idx as int] + offset.val()) % E::Scalar::modulus(),
                        ));
                        U0.lemma_valid_grows(c2, *cs);
                        assert(nums_valid(*cs, t@));
                    }
                    U.T_lookup_per_table = Some(t);
                },
            }
        }
        let ghost c3 = *cs;
        let r_i = AllocatedNum::alloc_value(
            cs,
            match x {
                Some(x) => match x.ri {
                    Some(r) => r,
                    None => zero,
                },
                None => zero,
            },
        );
        let r_next = AllocatedNum::alloc_value(
            cs,
            match x {
                Some(x) => x.r_next,
                None => zero,
            },
        );
        let u = AllocatedNonnativeR1CSInstance::allocate(
            cs,
            match x {
                Some(x) => x.u.as_ref(),
                None => None,
            },
        );
        let nifs = AllocatedNIFS::allocate(
            cs,
            match x {
                Some(x) => x.nifs.as_ref(),
                None => None,
            },
            POLY_DEGREE,
        )?;
        let comm_W_fold = AllocatedNonnativePoint::allocate(
            cs,
            match x {
                Some(x) => x.comm_W_fold.as_ref(),
                None => None,
            },
        );
        let comm_E_fold = AllocatedNonnativePoint::allocate(
            cs,
            match x {
                Some(x) => x.comm_E_fold.as_ref(),
                None => None,
            },
        );
        proof {
            assert(U.valid(c3));
            U.lemma_valid_grows(c3, *cs);
        }
        Ok(
            AugmentedWitness {
                pp_digest,
                i,
                z_0,
                z_i,
                U,
                r_i,
                r_next,
                u,
                nifs,
                comm_W_fold,
                comm_E_fold,
            },
        )
    }
}

/// Adds the first values of a state; zeros where none is given.
fn alloc_state<F: PrimeField>(
    cs: &mut ConstraintSystem<F>,
    z: Option<&Vec<F>>,
    arity: usize,
) -> (r: Vec<AllocatedNum<F>>)
    requires
        old(cs).wf(),
        z is Some ==> z->Some_0@.len() >= arity,
    ensures
        old(cs).grows(*final(cs)),
        nums_valid(*final(cs), r@),
        r@.len() == arity,
        forall|e: Valuation| #[trigger] final(cs).admits(e) == old(cs).admits(e),
        final(cs).satisfied() == old(cs).satisfied(),
        old(cs).records() ==> nums_at(r@, Valuation::Recorded) == (match z {
            Some(v) => vals(v@.take(arity as int)),
            None => Seq::new(arity as nat, |j: int| 0int),
        }),
        final(cs).layout() == old(cs).layout().more(arity as nat),
        nums_at(r@, Valuation::Names) == fresh(old(cs).layout().aux, arity as nat),
{
    let ghost before = *cs;
    let mut r: Vec<AllocatedNum<F>> = Vec::new();
    let mut i: usize = 0;
    while i < arity
        invariant
            i <= arity,
            z is Some ==> z->Some_0@.len() >= arity,
            before.wf(),
            before.grows(*cs),
            r@.len() == i,
            nums_valid(*cs, r@),
            forall|e: Valuation| #[trigger] cs.admits(e) == before.admits(e),
            cs.satisfied() == before.satisfied(),
            before.records() ==> forall|j: int|
                0 <= j < i ==> (#[trigger] r@[j]).at(Valuation::Recorded) == (match z {
                    Some(v) => v@[j].val(),
                    None => 0,
                }),
            cs.layout() == before.layout().more(i as nat),
            forall|j: int|
                0 <= j < i ==> (#[trigger] r@[j]).at(Valuation::Names) == before.layout().aux + j,
        decreases arity - i,
    {
        let value = match z {
            Some(v) => v[i],
            None => F::zero(),
        };
        let n = AllocatedNum::alloc_value(cs, value);
        r.push(n);
        i = i + 1;
    }
    proof {
        assert(nums_at(r@, Valuation::Names) =~= fresh(before.layout().aux, arity as nat));
        if before.records() {
            let e = Valuation::Recorded;
            match z {
                Some(v) => {
                    assert(nums_at(r@, e) =~= vals(v@.take(arity as int)));
                },
                None => {
                    assert(nums_at(r@, e) =~= Seq::new(arity as nat, |j: int| 0int));
                },
            }
        }
    }
    r
}

/// The allocated values of the lookups of a step.
struct LookupWitness<E: Engine> {
    registry: Vec<AllocatedNum<E::Scalar>>,
    lookups: AllocatedLookupNIFSMultiTable<E>,
    tables: Vec<AllocatedLookupPayloadPublicMultiTable<E>>,
}

impl<E: Engine> LookupWitness<E> {
    spec fn at(self, e: Valuation) -> LookupVal {
        LookupVal {
            registry: nums_at(self.registry@, e),
            tables: payloads_at(self.tables@, e),
            polys: polys_at(self.lookups.poly_lookup@, e),
            inv_w: points_at(self.lookups.comm_inv_w@, e),
            inv_t: points_at(self.lookups.comm_inv_t@, e),
            comm_L_fold: points_at(self.lookups.comm_L_fold@, e),
            comm_ts_fold: points_at(self.lookups.comm_ts_fold@, e),
        }
    }

    spec fn valid(self, cs: ConstraintSystem<E::Scalar>) -> bool {
        &&& nums_valid(cs, self.registry@)
        &&& payloads_valid(cs, self.tables@)
        &&& self.lookups.valid(cs)
    }
}

/// What the lookups of a step with `k` tables look like under a valuation.
pub open spec fn lookup_shape(l: LookupVal, k: nat, positions: nat) -> bool {
    if k > 0 {
        &&& l.registry.len() == positions
        &&& l.tables.len() == k
        &&& l.polys.len() == k
        &&& l.inv_w.len() == k
        &&& l.inv_t.len() == k
        &&& l.comm_L_fold.len() == k
        &&& l.comm_ts_fold.len() == k
    } else {
        l == no_lookups()
    }
}

/// Adds a number for each of the scalars.
fn alloc_scalars<F: PrimeField>(cs: &mut ConstraintSystem<F>, v: &[F]) -> (r: Vec<AllocatedNum<F>>)
    requires
        old(cs).wf(),
    ensures
        old(cs).grows(*final(cs)),
        nums_valid(*final(cs), r@),
        r@.len() == v@.len(),
        forall|e: Valuation| #[trigger] final(cs).admits(e) == old(cs).admits(e),
        final(cs).satisfied() == old(cs).satisfied(),
        old(cs).records() ==> nums_at(r@, Valuation::Recorded) == vals(v@),
        final(cs).layout() == old(cs).layout().more(v@.len()),
        nums_at(r@, Valuation::Names) == fresh(old(cs).layout().aux, v@.len()),
{
    let ghost before = *cs;
    let mut r: Vec<AllocatedNum<F>> = Vec::new();
    let n: usize = v.len();
    let mut i: usize = 0;
    while i < n
        invariant
            i <= n,
            n == v@.len(),
            before.wf(),
            before.grows(*cs),
            r@.len() == i,
            nums_valid(*cs, r@),
            forall|e: Valuation| #[trigger] cs.admits(e) == before.admits(e),
            cs.satisfied() == before.satisfied(),
            before.records() ==> forall|j: int|
                0 <= j < i ==> (#[trigger] r@[j]).at(Valuation::Recorded) == v@[j].val(),
            cs.layout() == before.layout().more(i as nat),
            forall|j: int|
                0 <= j < i ==> (#[trigger] r@[j]).at(Valuation::Names) == before.layout().aux + j,
        decreases n - i,
    {
        let x = AllocatedNum::alloc_value(cs, v[i]);
        r.push(x);
        i = i + 1;
    }
    proof {
        assert(nums_at(r@, Valuation::Names) =~= fresh(before.layout().aux, n as nat));
        if before.records() {
            assert(nums_at(r@, Valuation::Recorded) =~= vals(v@));
        }
    }
    r
}

/// The values of a step after the fold, before the step circuit.
pub struct Prepared<E: Engine> {
    pub witness: AugmentedWitness<E>,
    pub U_new: AllocatedFoldedInstance<E>,
    pub i_new: AllocatedNum<E::Scalar>,
    pub z_input: Vec<AllocatedNum<E::Scalar>>,
}

impl<E: Engine> Prepared<E> {
    /// The values belong to the system.
    pub open spec fn valid(self, cs: ConstraintSystem<E::Scalar>) -> bool {
        &&& self.witness.valid(cs)
        &&& self.U_new.valid(cs)
        &&& cs.valid(self.i_new)
        &&& nums_valid(cs, self.z_input@)
    }

    /// Where the values stand in the system.
    pub open spec fn names(self) -> PreparedNames {
        PreparedNames {
            witness: self.witness.at(Valuation::Names),
            U_new: self.U_new.at(Valuation::Names),
            i_new: self.i_new.at(Valuation::Names),
            z_input: nums_at(self.z_input@, Valuation::Names),
        }
    }

    /// The values after the fold are what the values of the step and of its lookups lead to.
    pub open spec fn prepared_from(self, l: LookupVal, k: nat, e: Valuation) -> bool {
        let v = self.witness.at(e);
        &&& next_instance::<E>(v, l, k, self.U_new.at(e))
        &&& self.i_new.at(e) == (v.i + 1) % E::Scalar::modulus()
        &&& nums_at(self.z_input@, e) == step_start(v)
    }
}

impl<'a, E: Engine, SC: StepCircuit<E::Scalar>> NeutronAugmentedCircuit<'a, E, SC> {
    /// The instance that a chain starts from.
    fn synthesize_base_case(&self, cs: &mut ConstraintSystem<E::Scalar>) -> (r: Result<
        AllocatedFoldedInstance<E>,
        SynthesisError,
    >)
        requires
            old(cs).wf(),
        ensures
            r is Ok,
            old(cs).grows(*final(cs)),
            r->Ok_0.valid(*final(cs)),
            r->Ok_0.shape() == shape_of(default_folded(1, some_tables(self.k()))),
            forall|e: Valuation| #[trigger]
                final(cs).admits(e) ==> r->Ok_0.at(e) == default_folded(1, some_tables(self.k())),
            old(cs).records() ==> final(cs).satisfied() == old(cs).satisfied(),
            final(cs).layout() == lay_default(old(cs).layout(), some_tables(self.k())),
            r->Ok_0.at(Valuation::Names) == default_names(
                old(cs).layout(),
                1,
                some_tables(self.k()),
            ),
    {
        if self.lookup_fold_k > 0 {
            return AllocatedFoldedInstance::default_with_lookup_k(cs, 1, self.lookup_fold_k);
        }
        AllocatedFoldedInstance::default(cs, 1)
    }

    /// Adds the lookups of the step.
    fn alloc_lookups(&self, cs: &mut ConstraintSystem<E::Scalar>) -> (r: Result<
        LookupWitness<E>,
        SynthesisError,
    >)
        requires
            old(cs).wf(),
            self.fits(),
            self.k() > 0,
        ensures
            r is Ok,
            old(cs).grows(*final(cs)),
            r->Ok_0.valid(*final(cs)),
            r->Ok_0.registry@.len() == self.shape_registry@.len(),
            r->Ok_0.tables@.len() == self.k(),
            r->Ok_0.lookups.poly_lookup@.len() == self.k(),
            r->Ok_0.lookups.comm_inv_w@.len() == self.k(),
            r->Ok_0.lookups.comm_inv_t@.len() == self.k(),
            r->Ok_0.lookups.comm_L_fold@.len() == self.k(),
            r->Ok_0.lookups.comm_ts_fold@.len() == self.k(),
            forall|e: Valuation| #[trigger] final(cs).admits(e) == old(cs).admits(e),
            final(cs).satisfied() == old(cs).satisfied(),
            old(cs).records() ==> r->Ok_0.at(Valuation::Recorded) == self.lookup_val(),
            final(cs).layout() == old(cs).layout().more(lookup_size(self.dims())),
            r->Ok_0.at(Valuation::Names) == lookup_names(old(cs).layout().aux, self.dims()),
    {
        let ghost before = *cs;
        let registry = alloc_scalars(cs, self.shape_registry);
        let message = match &self.inputs {
            Some(x) => x.nifs.as_ref(),
            None => None,
        };
        proof {
            assert(message == self.message());
        }
        let lookups = AllocatedLookupNIFSMultiTable::<E>::allocate(
            cs,
            message,
            self.lookup_fold_k,
        )?;
        let ghost c1 = *cs;
        let bundles = match &self.inputs {
            Some(x) => x.public_bundles_multi_table.as_ref(),
            None => None,
        };
        let mut tables: Vec<AllocatedLookupPayloadPublicMultiTable<E>> = Vec::new();
        let mut j: usize = 0;
        while j < self.lookup_fold_k
            invariant
                j <= self.lookup_fold_k,
                c1.wf(),
                c1.grows(*cs),
                tables@.len() == j,
                payloads_valid(*cs, tables@),
                bundles == (match self.inputs {
                    Some(x) => match x.public_bundles_multi_table {
                        Some(b) => Some(&b),
                        None => None,
                    },
                    None => None,
                }),
                forall|e: Valuation| #[trigger] cs.admits(e) == c1.admits(e),
                cs.satisfied() == c1.satisfied(),
                c1.records() ==> forall|m: int|
                    0 <= m < j ==> (#[trigger] tables@[m]).at(Valuation::Recorded) == payload_val(
                        self.payload(m),
                    ),
                cs.layout() == c1.layout().more(tables_size(self.dims().columns, j as nat)),
                forall|m: int|
                    0 <= m < j ==> (#[trigger] tables@[m]).at(Valuation::Names) == fresh_table(
                        c1.layout().aux + tables_size(self.dims().columns, m as nat),
                        self.dims().columns[m],
                    ),
            decreases self.lookup_fold_k - j,
        {
            let ghost c2 = *cs;
            let payload = match bundles {
                Some(b) => if j < b.len() {
                    Some(&b[j])
                } else {
                    None
                },
                None => None,
            };
            proof {
                assert(payload == self.payload(j as int));
            }
            let t = AllocatedLookupPayloadPublicMultiTable::allocate(cs, payload)?;
            proof {
                assert forall|m: int| 0 <= m < tables@.len() implies (
                #[trigger] tables@[m]).valid(*cs) by {
                    assert(tables@[m].valid(c2));
                }
            }
            tables.push(t);
            j = j + 1;
        }
        let r = LookupWitness { registry, lookups, tables };
        proof {
            assert(payloads_at(tables@, Valuation::Names) =~= lookup_names(
                before.layout().aux,
                self.dims(),
            ).tables);
            assert forall|m: int| 0 <= m < lookups.poly_lookup@.len() implies (
            #[trigger] lookups.poly_lookup@[m]).valid(*cs) && lookups.poly_lookup@[m].coeffs@.len()
                > 0 by {
                assert(lookups.poly_lookup@[m].valid(c1));
            }
            assert(points_valid(*cs, lookups.comm_inv_w@)) by {
                assert forall|m: int| 0 <= m < lookups.comm_inv_w@.len() implies (
                #[trigger] lookups.comm_inv_w@[m]).valid(*cs) by {
                    assert(lookups.comm_inv_w@[m].valid(c1));
                }
            }
            assert(points_valid(*cs, lookups.comm_inv_t@)) by {
                assert forall|m: int| 0 <= m < lookups.comm_inv_t@.len() implies (
                #[trigger] lookups.comm_inv_t@[m]).valid(*cs) by {
                    assert(lookups.comm_inv_t@[m].valid(c1));
                }
            }
            assert(points_valid(*cs, lookups.comm_L_fold@)) by {
                assert forall|m: int| 0 <= m < lookups.comm_L_fold@.len() implies (
                #[trigger] lookups.comm_L_fold@[m]).valid(*cs) by {
                    assert(lookups.comm_L_fold@[m].valid(c1));
                }
            }
            assert(points_valid(*cs, lookups.comm_ts_fold@)) by {
                assert forall|m: int| 0 <= m < lookups.comm_ts_fold@.len() implies (
                #[trigger] lookups.comm_ts_fold@[m]).valid(*cs) by {
                    assert(lookups.comm_ts_fold@[m].valid(c1));
                }
            }
            if before.records() {
                let e = Valuation::Recorded;
                assert(payloads_at(tables@, e) =~= self.lookup_val().tables);
                assert(r.at(e).polys =~= self.lookup_val().polys);
            }
        }
        Ok(r)
    }
}

impl<'a, E: Engine, SC: StepCircuit<E::Scalar>> NeutronAugmentedCircuit<'a, E, SC> {
    /// The fold of a step with lookups.
    fn synthesize_non_base_case_lookup_fold(
        &self,
        cs: &mut ConstraintSystem<E::Scalar>,
        w: &AugmentedWitness<E>,
    ) -> (r: Result<
        (AllocatedFoldedInstance<E>, Ghost<spec_fn(Valuation) -> LookupVal>),
        SynthesisError,
    >)
        requires
            old(cs).wf(),
            self.fits(),
            self.k() > 0,
            self.input_refusal(old(cs).records()) is None,
            w.valid(*old(cs)),
            w.U.shape() == shape_of(hinted(self.running(), self.k())),
            w.z_i@.len() == self.step_circuit.width(),
            old(cs).records() ==> w.at(Valuation::Recorded) == self.step_val(),
            old(cs).records() && self.early_refusal(true) is None ==> self.fold_defined(),
        ensures
            r is Ok <==> self.early_refusal(old(cs).records()) is None && w.U.X@.len() == 1,
            r is Err && self.early_refusal(old(cs).records()) is Some ==> refused_as(
                r,
                self.early_refusal(old(cs).records())->Some_0,
            ),
            r is Err && self.early_refusal(old(cs).records()) is None ==> refused_for(
                r,
                FOLD_ARITY@,
            ),
            r is Ok ==> {
                let p = E::Scalar::modulus();
                let l = r->Ok_0.1@;
                &&& old(cs).grows(*final(cs))
                &&& r->Ok_0.0.valid(*final(cs))
                &&& r->Ok_0.0.shape() == shape_of(default_folded(1, Some(self.k())))
                &&& forall|e: Valuation|
                    lookup_shape(#[trigger] l(e), self.k(), self.shape_registry@.len())
                &&& forall|e: Valuation| #[trigger]
                    final(cs).admits(e) ==> folded_into::<E>(
                        w.at(e),
                        l(e),
                        self.k(),
                        r->Ok_0.0.at(e),
                    )
                &&& forall|a: spec_fn(Variable) -> int| #[trigger]
                    final(cs).met_by(a) ==> {
                        let e = Valuation::Assigned(a);
                        &&& fold_checks::<E>(step_input(w.at(e), l(e), self.k()))
                        &&& registered(
                            p,
                            w.at(e).pp,
                            w.at(e).zi.last(),
                            l(e).registry,
                            self.index_n_bits as nat,
                        )
                    }
                &&& old(cs).records() ==> l(Valuation::Recorded) == self.lookup_val()
                &&& (final(cs).layout(), r->Ok_0.0.at(Valuation::Names)) == lay_lookup_fold::<E>(
                    old(cs).layout(),
                    w.at(Valuation::Names),
                    self.dims(),
                )
                &&& old(cs).records() ==> (final(cs).satisfied() <==> {
                    let e = Valuation::Recorded;
                    &&& old(cs).satisfied()
                    &&& fold_checks::<E>(step_input(w.at(e), l(e), self.k()))
                    &&& registered(
                        p,
                        w.at(e).pp,
                        w.at(e).zi.last(),
                        l(e).registry,
                        self.index_n_bits as nat,
                    )
                })
            },
    {
        let ghost before = *cs;
        let ghost k = self.k();
        if self.shape_registry.len() == 0 {
            return refuse(REGISTRY_EMPTY);
        }
        if self.index_n_bits == 0 {
            return refuse(INDEX_BITS_ZERO);
        }
        if w.U.X.len() == 0 {
            return refuse(U_X_EMPTY);
        }
        let arity: usize = w.z_i.len();
        if arity == 0 {
            return refuse(Z_EMPTY);
        }
        let chunk_index_in_z = &w.z_i[arity - 1];
        let lw = self.alloc_lookups(cs)?;
        let ghost c1 = *cs;
        let t_lookup_running = match &w.U.T_lookup_per_table {
            Some(t) => copy_nums(t),
            None => {
                return refuse(U_T_LOOKUP_NONE);
            },
        };
        let ghost l = |e: Valuation| lw.at(e);
        proof {
            w.lemma_valid_grows(before, c1);
            assert(before.valid(w.z_i@[arity - 1]));
            assert forall|e: Valuation| #[trigger] multi_table_input(
                plain_input(w.nifs, w.pp_digest, w.U, w.u, e),
                lw.lookups,
                payloads_at(lw.tables@, e),
                nums_at(t_lookup_running@, e),
                e,
            ) == step_input(w.at(e), l(e), k) by {
                assert(or_empty(w.at(e).U.T_lookup) =~= nums_at(t_lookup_running@, e));
            }
        }
        let out = w.nifs.verify_with_multi_table_lookup(
            cs,
            &w.pp_digest,
            chunk_index_in_z,
            &lw.registry,
            self.index_n_bits,
            &w.U,
            &w.u,
            &lw.lookups,
            &lw.tables,
            &t_lookup_running,
            &w.comm_W_fold,
            &w.comm_E_fold,
        );
        match out {
            Err(e) => Err(e),
            Ok(o) => {
                let ghost o0 = o;
                let U_fold = AllocatedFoldedInstance::from_lookup_fold_output(
                    o.U_fold,
                    o.T_lookup_out_per_table,
                    o.comm_L_fold_per_table,
                    o.comm_ts_fold_per_table,
                );
                proof {
                    reveal(lay_lookup_fold);
                    let n = Valuation::Names;
                    assert(multi_table_input(
                        plain_input(w.nifs, w.pp_digest, w.U, w.u, n),
                        lw.lookups,
                        payloads_at(lw.tables@, n),
                        nums_at(t_lookup_running@, n),
                        n,
                    ) == step_input(w.at(n), l(n), k));
                    assert(w.at(n).zi.last() == chunk_index_in_z.at(n));
                    assert(points_at(o0.comm_L_fold_per_table@, n) == l(n).comm_L_fold);
                    assert(points_at(o0.comm_ts_fold_per_table@, n) == l(n).comm_ts_fold);
                    assert(U_fold.at(n) == renewed(
                        o0.U_fold.at(n),
                        nums_at(o0.T_lookup_out_per_table@, n),
                        l(n),
                        k,
                    ));
                    assert forall|e: Valuation| #[trigger] cs.admits(e) implies folded_into::<E>(
                        w.at(e),
                        l(e),
                        k,
                        U_fold.at(e),
                    ) by {
                        let x = multi_table_input(
                            plain_input(w.nifs, w.pp_digest, w.U, w.u, e),
                            lw.lookups,
                            payloads_at(lw.tables@, e),
                            nums_at(t_lookup_running@, e),
                            e,
                        );
                        assert(x == step_input(w.at(e), l(e), k));
                        let t_outs = nums_at(o0.T_lookup_out_per_table@, e);
                        assert(folds_to::<E>(
                            step_input(w.at(e), l(e), k),
                            w.at(e).comm_W_fold,
                            w.at(e).comm_E_fold,
                            o0.U_fold.at(e),
                            t_outs,
                        ));
                        assert(points_at(o0.comm_L_fold_per_table@, e) == l(e).comm_L_fold);
                        assert(points_at(o0.comm_ts_fold_per_table@, e) == l(e).comm_ts_fold);
                        assert(U_fold.at(e) == renewed(o0.U_fold.at(e), t_outs, l(e), k));
                    }
                    assert forall|a: spec_fn(Variable) -> int| #[trigger] cs.met_by(a) implies {
                        let e = Valuation::Assigned(a);
                        &&& fold_checks::<E>(step_input(w.at(e), l(e), k))
                        &&& registered(
                            E::Scalar::modulus(),
                            w.at(e).pp,
                            w.at(e).zi.last(),
                            l(e).registry,
                            self.index_n_bits as nat,
                        )
                    } by {
                        let e = Valuation::Assigned(a);
                        let x = multi_table_input(
                            plain_input(w.nifs, w.pp_digest, w.U, w.u, e),
                            lw.lookups,
                            payloads_at(lw.tables@, e),
                            nums_at(t_lookup_running@, e),
                            e,
                        );
                        assert(x == step_input(w.at(e), l(e), k));
                        assert(w.at(e).zi.last() == chunk_index_in_z.at(e));
                    }
                    let e = Valuation::Recorded;
                    assert(w.at(e).zi.last() == chunk_index_in_z.at(e));
                }
                Ok((U_fold, Ghost(l)))
            },
        }
    }

    /// The fold of a step, and whether the instance to fold in carries the hash of the state.
    fn synthesize_non_base_case(
        &self,
        cs: &mut ConstraintSystem<E::Scalar>,
        w: &AugmentedWitness<E>,
    ) -> (r: Result<
        (
            AllocatedFoldedInstance<E>,
            AllocatedBit<E::Scalar>,
            Ghost<spec_fn(Valuation) -> LookupVal>,
        ),
        SynthesisError,
    >)
        requires
            old(cs).wf(),
            self.fits(),
            self.input_refusal(old(cs).records()) is None,
            w.valid(*old(cs)),
            w.U.shape() == shape_of(hinted(self.running(), self.k())),
            w.z_i@.len() == self.step_circuit.width(),
            old(cs).records() ==> w.at(Valuation::Recorded) == self.step_val(),
            old(cs).records() && self.early_refusal(true) is None ==> self.fold_defined(),
        ensures
            r is Ok <==> self.early_refusal(old(cs).records()) is None && w.U.X@.len() == 1,
            r is Err && self.early_refusal(old(cs).records()) is Some ==> refused_as(
                r,
                self.early_refusal(old(cs).records())->Some_0,
            ),
            r is Err && self.early_refusal(old(cs).records()) is None ==> refused_for(
                r,
                FOLD_ARITY@,
            ),
            r is Ok ==> {
                let p = E::Scalar::modulus();
                let l = r->Ok_0.2@;
                &&& old(cs).grows(*final(cs))
                &&& r->Ok_0.0.valid(*final(cs))
                &&& final(cs).valid(r->Ok_0.1.num)
                &&& self.k() > 0 ==> r->Ok_0.0.shape() == shape_of(
                    default_folded(1, Some(self.k())),
                )
                &&& self.k() == 0 ==> r->Ok_0.0.shape() == w.U.shape()
                &&& forall|e: Valuation|
                    lookup_shape(#[trigger] l(e), self.k(), self.shape_registry@.len())
                &&& forall|e: Valuation| #[trigger]
                    final(cs).admits(e) ==> {
                        let v = w.at(e);
                        &&& folded_into::<E>(v, l(e), self.k(), r->Ok_0.0.at(e))
                        &&& r->Ok_0.1.num.at(e) == if v.u.X == state_hash::<E>(
                            v.pp,
                            v.i,
                            v.z0,
                            v.zi,
                            v.U,
                            v.r_i,
                        ) {
                            1int
                        } else {
                            0int
                        }
                    }
                &&& forall|a: spec_fn(Variable) -> int| #[trigger]
                    final(cs).met_by(a) ==> {
                        let e = Valuation::Assigned(a);
                        &&& fold_checks::<E>(step_input(w.at(e), l(e), self.k()))
                        &&& self.k() > 0 ==> registered(
                            p,
                            w.at(e).pp,
                            w.at(e).zi.last(),
                            l(e).registry,
                            self.index_n_bits as nat,
                        )
                    }
                &&& old(cs).records() ==> l(Valuation::Recorded) == self.lookup_val()
                &&& (
                    final(cs).layout(),
                    r->Ok_0.0.at(Valuation::Names),
                    r->Ok_0.1.num.at(Valuation::Names),
                ) == lay_non_base::<E>(old(cs).layout(), w.at(Valuation::Names), self.dims())
                &&& old(cs).records() ==> (final(cs).satisfied() <==> {
                    let e = Valuation::Recorded;
                    &&& old(cs).satisfied()
                    &&& fold_checks::<E>(step_input(w.at(e), l(e), self.k()))
                    &&& self.k() > 0 ==> registered(
                        p,
                        w.at(e).pp,
                        w.at(e).zi.last(),
                        l(e).registry,
                        self.index_n_bits as nat,
                    )
                })
            },
    {
        let ghost before = *cs;
        let hash = hash_state::<E>(cs, &w.pp_digest, &w.i, &w.z_0, &w.z_i, &w.U, &w.r_i);
        let ghost c1 = *cs;
        let check_pass = alloc_num_equals(cs, &w.u.X, &hash);
        let ghost c2 = *cs;
        proof {
            reveal(lay_non_base);
            w.lemma_valid_grows(before, c2);
            assert forall|e: Valuation| #[trigger] c2.admits(e) implies check_pass.num.at(e) == {
                let v = w.at(e);
                if v.u.X == state_hash::<E>(v.pp, v.i, v.z0, v.zi, v.U, v.r_i) {
                    1int
                } else {
                    0int
                }
            } by {
                assert(c1.admits(e));
            }
        }
        if self.lookup_fold_k > 0 {
            let (U_fold, Ghost(l)) = self.synthesize_non_base_case_lookup_fold(cs, w)?;
            proof {
                assert forall|e: Valuation| #[trigger] cs.admits(e) implies c2.admits(e) by {}
            }
            return Ok((U_fold, check_pass, Ghost(l)));
        }
        let ghost l = |e: Valuation| no_lookups();
        proof {
            assert forall|e: Valuation| #[trigger] plain_input(
                w.nifs,
                w.pp_digest,
                w.U,
                w.u,
                e,
            ) == step_input(w.at(e), l(e), 0) by {}
            let n = Valuation::Names;
            assert(plain_input(w.nifs, w.pp_digest, w.U, w.u, n) == step_input(w.at(n), l(n), 0));
        }
        let U_fold = w.nifs.verify(
            cs,
            &w.pp_digest,
            &w.U,
            &w.u,
            &w.comm_W_fold,
            &w.comm_E_fold,
        )?;
        proof {
            assert forall|e: Valuation| #[trigger] cs.admits(e) implies folded_into::<E>(
                w.at(e),
                l(e),
                0,
                U_fold.at(e),
            ) && c2.admits(e) by {
                assert(plain_input(w.nifs, w.pp_digest, w.U, w.u, e) == step_input(
                    w.at(e),
                    l(e),
                    0,
                ));
                assert(folds_to::<E>(
                    step_input(w.at(e), l(e), 0),
                    w.at(e).comm_W_fold,
                    w.at(e).comm_E_fold,
                    U_fold.at(e),
                    Seq::empty(),
                ));
                assert(U_fold.at(e) == renewed(U_fold.at(e), Seq::empty(), l(e), 0));
            }
            assert forall|a: spec_fn(Variable) -> int| #[trigger] cs.met_by(a) implies fold_checks::<
                E,
            >(step_input(w.at(Valuation::Assigned(a)), l(Valuation::Assigned(a)), 0)) by {
                let e = Valuation::Assigned(a);
                assert(plain_input(w.nifs, w.pp_digest, w.U, w.u, e) == step_input(
                    w.at(e),
                    l(e),
                    0,
                ));
            }
            let e = Valuation::Recorded;
            assert(plain_input(w.nifs, w.pp_digest, w.U, w.u, e) == step_input(w.at(e), l(e), 0));
        }
        Ok((U_fold, check_pass, Ghost(l)))
    }
}

/// The hash of a state.
fn hash_state<E: Engine>(
    cs: &mut ConstraintSystem<E::Scalar>,
    pp_digest: &AllocatedNum<E::Scalar>,
    i: &AllocatedNum<E::Scalar>,
    z_0: &Vec<AllocatedNum<E::Scalar>>,
    z: &Vec<AllocatedNum<E::Scalar>>,
    U: &AllocatedFoldedInstance<E>,
    r: &AllocatedNum<E::Scalar>,
) -> (h: AllocatedNum<E::Scalar>)
    requires
        old(cs).wf(),
        old(cs).valid(*pp_digest),
        old(cs).valid(*i),
        nums_valid(*old(cs), z_0@),
        nums_valid(*old(cs), z@),
        U.valid(*old(cs)),
        old(cs).valid(*r),
    ensures
        old(cs).grows(*final(cs)),
        final(cs).valid(h),
        forall|e: Valuation| #[trigger]
            final(cs).admits(e) ==> h.at(e) == state_hash::<E>(
                pp_digest.at(e),
                i.at(e),
                nums_at(z_0@, e),
                nums_at(z@, e),
                U.at(e),
                r.at(e),
            ),
        old(cs).records() ==> final(cs).satisfied() == old(cs).satisfied(),
        (final(cs).layout(), h.at(Valuation::Names)) == lay_hash::<E>(
            old(cs).layout(),
            pp_digest.at(Valuation::Names),
            i.at(Valuation::Names),
            nums_at(z_0@, Valuation::Names),
            nums_at(z@, Valuation::Names),
            U.at(Valuation::Names),
            r.at(Valuation::Names),
        ),
{
    let mut ro = RO2Circuit::<E>::new();
    let ghost s0 = ro;
    ro.absorb(pp_digest);
    let ghost s1 = ro;
    ro.absorb(i);
    let ghost s2 = ro;
    absorb_nums(&mut ro, z_0);
    let ghost s3 = ro;
    absorb_nums(&mut ro, z);
    let ghost s4 = ro;
    proof {
        assert(s0.valid(*cs));
        assert(s1.valid(*cs));
        assert(s2.valid(*cs));
        assert(s3.valid(*cs));
        assert(s4.valid(*cs));
    }
    let _ = U.absorb_in_ro(cs, &mut ro);
    let ghost s5 = ro;
    ro.absorb(r);
    let ghost s6 = ro;
    proof {
        assert(s5.valid(*cs));
        assert(s6.valid(*cs));
    }
    let h = ro.squeeze(cs, NUM_HASH_BITS);
    proof {
        assert forall|e: Valuation| #[trigger] s6.at(e) == absorbs(
            state_inputs(
                pp_digest.at(e),
                i.at(e),
                nums_at(z_0@, e),
                nums_at(z@, e),
                U.at(e),
                r.at(e),
            ),
        ) by {
            assert(s1.at(e) == s0.at(e).push(RoItem::Absorb(pp_digest.at(e))));
            assert(s2.at(e) == s1.at(e).push(RoItem::Absorb(i.at(e))));
            assert(s3.at(e) == s2.at(e) + absorbs(nums_at(z_0@, e)));
            assert(s4.at(e) == s3.at(e) + absorbs(nums_at(z@, e)));
            assert(s5.at(e) == s4.at(e) + absorbs(folded_inputs(U.at(e))));
            assert(s6.at(e) == s5.at(e).push(RoItem::Absorb(r.at(e))));
            assert(s6.at(e) =~= absorbs(
                state_inputs(
                    pp_digest.at(e),
                    i.at(e),
                    nums_at(z_0@, e),
                    nums_at(z@, e),
                    U.at(e),
                    r.at(e),
                ),
            ));
        }
    }
    h
}

/// The reason for which a state of the wrong width is refused.
pub const Z_NEXT: &'static str = "z_next";

/// The result is the error for a state of the wrong width.
pub open spec fn finished_short<T>(r: Result<T, SynthesisError>) -> bool {
    match r {
        Err(SynthesisError::IncompatibleLengthVector(s)) => s@ == Z_NEXT@,
        _ => false,
    }
}

/// The result of adding a whole step, given what the step circuit made of its part.
pub open spec fn finished_as<F: PrimeField>(
    z_next: Result<Vec<AllocatedNum<F>>, SynthesisError>,
    arity: nat,
    r: Result<Vec<AllocatedNum<F>>, SynthesisError>,
) -> bool {
    match z_next {
        Err(e) => r == Err::<Vec<AllocatedNum<F>>, SynthesisError>(e),
        Ok(z) => if z@.len() == arity {
            r == Ok::<Vec<AllocatedNum<F>>, SynthesisError>(z)
        } else {
            finished_short(r)
        },
    }
}

impl<E: Engine> Prepared<E> {
    /// Adds the last part of a step to a system: the hash of the state after the step becomes a
    /// public value. What the step circuit made of its part is passed on.
    pub fn finish(
        &self,
        cs: &mut ConstraintSystem<E::Scalar>,
        z_next: Result<Vec<AllocatedNum<E::Scalar>>, SynthesisError>,
        arity: usize,
    ) -> (r: Result<Vec<AllocatedNum<E::Scalar>>, SynthesisError>)
        requires
            old(cs).wf(),
            self.valid(*old(cs)),
            z_next is Ok ==> nums_valid(*old(cs), z_next->Ok_0@),
        ensures
            finished_as(z_next, arity as nat, r),
            r is Err ==> *final(cs) == *old(cs),
            r is Ok ==> {
                &&& final(cs).wf()
                &&& final(cs).records() == old(cs).records()
                &&& forall|n: AllocatedNum<E::Scalar>|
                    old(cs).valid(n) ==> #[trigger] final(cs).valid(n)
                &&& forall|e: Valuation| #[trigger]
                    final(cs).admits(e) ==> old(cs).admits(e) && final(cs).io(e) == old(cs).io(
                        e,
                    ).push(
                        state_hash::<E>(
                            self.witness.at(e).pp,
                            self.i_new.at(e),
                            self.witness.at(e).z0,
                            nums_at(r->Ok_0@, e),
                            self.U_new.at(e),
                            self.witness.at(e).r_next,
                        ),
                    )
                &&& old(cs).records() ==> final(cs).satisfied() == old(cs).satisfied()
                &&& final(cs).layout() == lay_finish::<E>(
                    old(cs).layout(),
                    self.names(),
                    nums_at(r->Ok_0@, Valuation::Names),
                )
            },
    {
        let ghost before = *cs;
        let z = match z_next {
            Ok(z) => z,
            Err(e) => {
                return Err(e);
            },
        };
        if z.len() != arity {
            return Err(SynthesisError::IncompatibleLengthVector(Z_NEXT.to_owned()));
        }
        let h = hash_state::<E>(
            cs,
            &self.witness.pp_digest,
            &self.i_new,
            &self.witness.z_0,
            &z,
            &self.U_new,
            &self.witness.r_next,
        );
        let ghost c1 = *cs;
        h.inputize(cs);
        proof {
            assert forall|e: Valuation| #[trigger] cs.admits(e) implies before.admits(e) && cs.io(e)
                == before.io(e).push(
                state_hash::<E>(
                    self.witness.at(e).pp,
                    self.i_new.at(e),
                    self.witness.at(e).z0,
                    nums_at(z@, e),
                    self.U_new.at(e),
                    self.witness.at(e).r_next,
                ),
            ) by {
                assert(c1.admits(e));
                assert(c1.io(e) == before.io(e));
            }
        }
        Ok(z)
    }
}

impl<'a, E: Engine, SC: StepCircuit<E::Scalar>> NeutronAugmentedCircuit<'a, E, SC> {
    /// Adds everything of a step that comes before the step circuit.
    fn prepare(&self, cs: &mut ConstraintSystem<E::Scalar>) -> (r: Result<
        (Prepared<E>, Ghost<spec_fn(Valuation) -> LookupVal>),
        SynthesisError,
    >)
        requires
            old(cs).wf(),
            self.fits(),
            old(cs).records() && self.early_refusal(true) is None ==> self.fold_defined(),
        ensures
            r is Ok <==> self.refusal(old(cs).records()) is None,
            r is Err ==> refused_as(r, self.refusal(old(cs).records())->Some_0),
            r is Ok ==> {
                let b = r->Ok_0.0;
                let l = r->Ok_0.1@;
                &&& old(cs).grows(*final(cs))
                &&& b.valid(*final(cs))
                &&& b.witness.z_0@.len() == self.step_circuit.width()
                &&& b.witness.z_i@.len() == self.step_circuit.width()
                &&& b.z_input@.len() == self.step_circuit.width()
                &&& forall|e: Valuation|
                    lookup_shape(#[trigger] l(e), self.k(), self.shape_registry@.len())
                &&& forall|e: Valuation| #[trigger]
                    final(cs).admits(e) ==> b.prepared_from(l(e), self.k(), e)
                &&& forall|a: spec_fn(Variable) -> int| #[trigger]
                    final(cs).met_by(a) ==> step_checks::<E>(
                        b.witness.at(Valuation::Assigned(a)),
                        l(Valuation::Assigned(a)),
                        self.k(),
                        self.index_n_bits as nat,
                    )
                &&& (final(cs).layout(), b.names()) == lay_prepare::<E>(
                    old(cs).layout(),
                    self.dims(),
                )
                &&& old(cs).records() ==> {
                    let e = Valuation::Recorded;
                    &&& b.witness.at(e) == self.step_val()
                    &&& l(e) == self.lookup_val()
                    &&& final(cs).satisfied() <==> old(cs).satisfied() && step_checks::<E>(
                        b.witness.at(e),
                        l(e),
                        self.k(),
                        self.index_n_bits as nat,
                    )
                }
            },
    {
        let ghost before = *cs;
        let ghost p = E::Scalar::modulus();
        let ghost k = self.k();
        let w = self.alloc_witness(cs)?;
        let ghost c1 = *cs;
        let zero = alloc_zero(cs);
        let ghost c2 = *cs;
        let is_base_case = alloc_num_equals(cs, &w.i, &zero);
        let ghost c3 = *cs;
        let U_base = self.synthesize_base_case(cs)?;
        let ghost c4 = *cs;
        proof {
            w.lemma_valid_grows(c1, c4);
        }
        let (U_non_base, check_non_base_pass, Ghost(l)) = self.synthesize_non_base_case(cs, &w)?;
        let ghost c5 = *cs;
        proof {
            w.lemma_valid_grows(c4, c5);
            U_base.lemma_valid_grows(c4, c5);
            assert forall|e: Valuation| #[trigger] c5.admits(e) implies is_base_case.num.at(e)
                == if w.at(e).i == 0 {
                1int
            } else {
                0int
            } by {
                assert(c4.admits(e));
                assert(c3.admits(e));
                assert(c2.admits(e));
            }
        }
        let should_be_false = AllocatedBit::nor(cs, &check_non_base_pass, &is_base_case);
        let ghost c6 = *cs;
        let bad = LinearCombination::of(&should_be_false.num);
        let none = LinearCombination::zero();
        enforce_equal(cs, bad, none);
        let ghost c7 = *cs;
        proof {
            w.lemma_valid_grows(c5, c7);
            U_base.lemma_valid_grows(c5, c7);
            U_non_base.lemma_valid_grows(c5, c7);
        }
        let base = Boolean::Is(is_base_case);
        proof {
            assert forall|e: Valuation| #[trigger] c7.admits(e) implies base.at(e) == (w.at(e).i
                == 0) by {
                assert(c6.admits(e));
                assert(c5.admits(e));
            }
        }
        let U_new = U_base.conditionally_select(cs, &U_non_base, &base)?;
        let ghost c8 = *cs;
        let one = ConstraintSystem::one();
        let i_new = AllocatedNum::alloc_value(cs, w.i.value_or_zero(cs).plus(E::Scalar::one()));
        let ghost c9 = *cs;
        let left = LinearCombination::of(&i_new);
        let i_only = LinearCombination::of(&w.i);
        let right = i_only.plus(&one);
        enforce_equal(cs, left, right);
        let ghost c10 = *cs;
        proof {
            w.lemma_valid_grows(c7, c10);
            U_new.lemma_valid_grows(c8, c10);
        }
        let z_input = conditionally_select_vec(cs, &w.z_0, &w.z_i, &base);
        let ghost c11 = *cs;
        proof {
            w.lemma_valid_grows(c10, c11);
            U_new.lemma_valid_grows(c10, c11);
        }
        let b = Prepared { witness: w, U_new, i_new, z_input };
        proof {
            reveal(lay_prepare);
            assert(right.laid() =~= once(w.i.at(Valuation::Names)).push((unit(), 1int)));
            assert forall|e: Valuation| #[trigger] c10.admits(e) implies i_new.at(e) == (w.at(e).i
                + 1) % p by {
                assert(left.at(e) == i_new.at(e));
                assert(one.at(e) == 1);
                assert(i_only.at(e) == w.i.at(e));
                assert(right.at(e) == (w.i.at(e) + 1) % p);
                match e {
                    Valuation::Assigned(a) => {
                        assert(c10.met_by(a));
                    },
                    Valuation::Recorded => {},
                    Valuation::Names => {},
                }
            }
            assert forall|e: Valuation| #[trigger] cs.admits(e) implies b.prepared_from(
                l(e),
                k,
                e,
            ) by {
                assert(c10.admits(e));
                assert(c9.admits(e));
                assert(c8.admits(e));
                assert(c7.admits(e));
                assert(c6.admits(e));
                assert(c5.admits(e));
                assert(c4.admits(e));
            }
            assert forall|e: Valuation| #[trigger] c6.admits(e) implies ((bad.at(e) == none.at(e))
                == (w.at(e).i == 0 || w.at(e).u.X == state_hash::<E>(
                w.at(e).pp,
                w.at(e).i,
                w.at(e).z0,
                w.at(e).zi,
                w.at(e).U,
                w.at(e).r_i,
            ))) by {
                assert(c5.admits(e));
                assert(bad.at(e) == should_be_false.num.at(e));
                assert(none.at(e) == 0);
            }
            assert forall|a: spec_fn(Variable) -> int| #[trigger] cs.met_by(a) implies step_checks::<
                E,
            >(
                w.at(Valuation::Assigned(a)),
                l(Valuation::Assigned(a)),
                k,
                self.index_n_bits as nat,
            ) by {
                let e = Valuation::Assigned(a);
                assert(cs.admits(e));
                assert(c10.admits(e));
                assert(c9.admits(e));
                assert(c8.admits(e));
                assert(c7.admits(e));
                assert(c7.met_by(a));
                assert(c6.met_by(a));
                assert(c6.admits(e));
                assert(c5.admits(e));
                assert(c5.met_by(a));
            }
            if before.records() {
                let e = Valuation::Recorded;
                assert(c6.admits(e));
                assert(left.at(e) == i_new.at(e));
                assert(one.at(e) == 1);
                assert(i_only.at(e) == w.i.at(e));
                assert(right.at(e) == (w.i.at(e) + 1) % p);
            }
        }
        Ok((b, Ghost(l)))
    }

    /// Adds a step to a system and returns the state after it. The hash of that state becomes a
    /// public value. The equality polynomial must not vanish at the challenges that recorded
    /// inputs lead to.
    pub fn synthesize(self, cs: &mut ConstraintSystem<E::Scalar>) -> (r: Result<
        Vec<AllocatedNum<E::Scalar>>,
        SynthesisError,
    >)
        requires
            old(cs).wf(),
            self.fits(),
            old(cs).records() && self.early_refusal(true) is None ==> self.fold_defined(),
        ensures
            self.refusal(old(cs).records()) is Some ==> refused_as(
                r,
                self.refusal(old(cs).records())->Some_0,
            ),
            self.refusal(old(cs).records()) is None ==> {
                let n = self.step_circuit.produces(self.recorded_start(old(cs).records()));
                &&& r is Ok <==> n == Some(self.step_circuit.width())
                &&& n is Some && r is Err ==> finished_short(r)
            },
            r is Ok ==> {
                &&& final(cs).wf()
                &&& final(cs).records() == old(cs).records()
                &&& r->Ok_0@.len() == self.step_circuit.width()
                &&& nums_valid(*final(cs), r->Ok_0@)
                &&& (final(cs).layout(), nums_at(r->Ok_0@, Valuation::Names)) == self.laid_out(
                    old(cs).layout(),
                )
                &&& forall|a: spec_fn(Variable) -> int| #[trigger]
                    final(cs).met_by(a) ==> {
                        let e = Valuation::Assigned(a);
                        &&& old(cs).met_by(a)
                        &&& exists|v: StepVal, l: LookupVal, U_new: FoldedVal|
                            {
                                &&& self.step_shape(v, l)
                                &&& step_checks::<E>(v, l, self.k(), self.index_n_bits as nat)
                                &&& self.step_circuit.step(step_start(v), nums_at(r->Ok_0@, e))
                                &&& #[trigger] next_instance::<E>(v, l, self.k(), U_new)
                                &&& final(cs).io(e) == old(cs).io(e).push(
                                    next_hash::<E>(v, nums_at(r->Ok_0@, e), U_new),
                                )
                            }
                    }
                &&& old(cs).records() ==> {
                    let e = Valuation::Recorded;
                    let v = self.step_val();
                    let l = self.lookup_val();
                    &&& final(cs).satisfied() <==> old(cs).satisfied() && step_checks::<E>(
                        v,
                        l,
                        self.k(),
                        self.index_n_bits as nat,
                    ) && self.step_circuit.step(step_start(v), nums_at(r->Ok_0@, e))
                    &&& nums_at(r->Ok_0@, e) == self.step_circuit.output(step_start(v))
                    &&& exists|U_new: FoldedVal|
                        {
                            &&& #[trigger] next_instance::<E>(v, l, self.k(), U_new)
                            &&& final(cs).io(e) == old(cs).io(e).push(
                                next_hash::<E>(v, nums_at(r->Ok_0@, e), U_new),
                            )
                        }
                }
            },
    {
        let ghost before = *cs;
        let arity: usize = self.step_circuit.arity();
        let (b, Ghost(l)) = self.prepare(cs)?;
        let ghost c1 = *cs;
        proof {
            if before.records() {
                assert(c1.admits(Valuation::Recorded));
            }
        }
        let z_next = self.step_circuit.synthesize(cs, &b.z_input);
        let ghost c2 = *cs;
        proof {
            b.witness.lemma_valid_grows(c1, c2);
            b.U_new.lemma_valid_grows(c1, c2);
        }
        let z = b.finish(cs, z_next, arity)?;
        proof {
            self.lemma_step(before, c1, c2, *cs, b, l, z@);
            assert forall|a: spec_fn(Variable) -> int| #[trigger] cs.met_by(a) implies {
                let e = Valuation::Assigned(a);
                &&& before.met_by(a)
                &&& exists|v: StepVal, l: LookupVal, U_new: FoldedVal|
                    {
                        &&& self.step_shape(v, l)
                        &&& step_checks::<E>(v, l, self.k(), self.index_n_bits as nat)
                        &&& self.step_circuit.step(step_start(v), nums_at(z@, e))
                        &&& #[trigger] next_instance::<E>(v, l, self.k(), U_new)
                        &&& cs.io(e) == before.io(e).push(next_hash::<E>(v, nums_at(z@, e), U_new))
                    }
            } by {
                let e = Valuation::Assigned(a);
                assert(cs.admits(e));
                assert(c2.admits(e));
                assert(c1.admits(e));
                assert(c2.met_by(a));
                assert(c1.met_by(a));
                assert(before.admits(e));
                let v = b.witness.at(e);
                assert(l(e) == l(e));
                assert(next_instance::<E>(v, l(e), self.k(), b.U_new.at(e)));
            }
            if before.records() {
                let e = Valuation::Recorded;
                assert(cs.admits(e));
                assert(c2.admits(e));
                assert(c1.admits(e));
                assert(next_instance::<E>(b.witness.at(e), l(e), self.k(), b.U_new.at(e)));
            }
        }
        Ok(z)
    }

    /// What a system becomes when the step is added to it, and the names of the state after the
    /// step: a function of the dimensions of the step and of how its circuit is laid out.
    pub open spec fn laid_out(self, l: Layout) -> (Layout, Seq<int>) {
        lay_step::<E>(
            l,
            self.dims(),
            |l: Layout, i: int, z: Seq<int>| self.step_circuit.layout_after(l, z),
        )
    }

    /// The first steps of two chains that agree on the digest, the state the chain starts from and
    /// the next blinding value record the same state after the step and publish the same hash,
    /// satisfied or not, whatever else the steps are given.
    pub proof fn law_first_step_records_alike(
        self,
        other: NeutronAugmentedCircuit<'a, E, SC>,
        U1: FoldedVal,
        U2: FoldedVal,
    )
        requires
            self.inputs is Some,
            other.inputs is Some,
            other.step_circuit == self.step_circuit,
            other.k() == self.k(),
            self.step_val().i == 0,
            other.step_val().i == 0,
            self.step_val().pp == other.step_val().pp,
            self.step_val().z0 == other.step_val().z0,
            self.step_val().r_next == other.step_val().r_next,
            next_instance::<E>(self.step_val(), self.lookup_val(), self.k(), U1),
            next_instance::<E>(other.step_val(), other.lookup_val(), other.k(), U2),
        ensures
            U1 == default_folded(1, some_tables(self.k())),
            U2 == U1,
            self.step_circuit.output(step_start(self.step_val())) == self.step_circuit.output(
                self.step_val().z0,
            ),
            other.step_circuit.output(step_start(other.step_val())) == self.step_circuit.output(
                self.step_val().z0,
            ),
            next_hash::<E>(
                self.step_val(),
                self.step_circuit.output(step_start(self.step_val())),
                U1,
            ) == next_hash::<E>(
                other.step_val(),
                other.step_circuit.output(step_start(other.step_val())),
                U2,
            ),
    {
    }

    /// The state that the step circuit starts from, where the inputs are recorded.
    pub open spec fn recorded_start(self, recording: bool) -> Option<Seq<int>> {
        if recording {
            Some(step_start(self.step_val()))
        } else {
            None
        }
    }

    /// The number of the step, where the inputs are recorded.
    pub open spec fn recorded_number(self, recording: bool) -> int {
        if recording {
            self.step_val().i
        } else {
            0
        }
    }

    /// The widths of the values of a step.
    pub open spec fn step_shape(self, v: StepVal, l: LookupVal) -> bool {
        &&& v.z0.len() == self.step_circuit.width()
        &&& v.zi.len() == self.step_circuit.width()
        &&& lookup_shape(l, self.k(), self.shape_registry@.len())
    }

    proof fn lemma_step(
        self,
        before: ConstraintSystem<E::Scalar>,
        c1: ConstraintSystem<E::Scalar>,
        c2: ConstraintSystem<E::Scalar>,
        c3: ConstraintSystem<E::Scalar>,
        b: Prepared<E>,
        l: spec_fn(Valuation) -> LookupVal,
        z: Seq<AllocatedNum<E::Scalar>>,
    )
        requires
            before.grows(c1),
            c1.grows(c2),
            forall|e: Valuation| #[trigger] c1.admits(e) ==> b.prepared_from(l(e), self.k(), e),
            forall|e: Valuation| #[trigger]
                c3.admits(e) ==> c2.admits(e) && c3.io(e) == c2.io(e).push(
                    state_hash::<E>(
                        b.witness.at(e).pp,
                        b.i_new.at(e),
                        b.witness.at(e).z0,
                        nums_at(z, e),
                        b.U_new.at(e),
                        b.witness.at(e).r_next,
                    ),
                ),
        ensures
            forall|e: Valuation| #[trigger]
                c3.admits(e) ==> {
                    &&& before.admits(e)
                    &&& next_instance::<E>(b.witness.at(e), l(e), self.k(), b.U_new.at(e))
                    &&& nums_at(b.z_input@, e) == step_start(b.witness.at(e))
                    &&& c3.io(e) == before.io(e).push(
                        next_hash::<E>(b.witness.at(e), nums_at(z, e), b.U_new.at(e)),
                    )
                },
    {
        assert forall|e: Valuation| #[trigger] c3.admits(e) implies {
            &&& before.admits(e)
            &&& next_instance::<E>(b.witness.at(e), l(e), self.k(), b.U_new.at(e))
            &&& nums_at(b.z_input@, e) == step_start(b.witness.at(e))
            &&& c3.io(e) == before.io(e).push(
                next_hash::<E>(b.witness.at(e), nums_at(z, e), b.U_new.at(e)),
            )
        } by {
            assert(c2.admits(e));
            assert(c1.admits(e));
            assert(c2.io(e) == c1.io(e));
            assert(c1.io(e) == before.io(e));
            assert(b.prepared_from(l(e), self.k(), e));
        }
    }
}

impl<'a, E: Engine, SC: StepCircuitWithAux<E::Scalar>> NeutronAugmentedCircuit<'a, E, SC> {
    /// What a system becomes when the step is added to it with its number, and the names of the
    /// state after the step.
    pub open spec fn laid_out_aux(self, l: Layout) -> (Layout, Seq<int>) {
        lay_step::<E>(
            l,
            self.dims(),
            |l: Layout, i: int, z: Seq<int>| self.step_circuit.layout_after_with_aux(l, i, z),
        )
    }

    /// A step circuit that takes no notice of the number of the step is added with the number as
    /// it is added without: the same variables and constraints, as many values, and the same
    /// states before and after the step.
    pub proof fn law_unused_number(
        self,
        l: Layout,
        recording: bool,
        v: StepVal,
        z: Seq<int>,
    )
        requires
            forall|l: Layout, i: int, z: Seq<int>| #[trigger]
                self.step_circuit.layout_after_with_aux(l, i, z) == self.step_circuit.layout_after(
                    l,
                    z,
                ),
            forall|i: int, z: Option<Seq<int>>| #[trigger]
                self.step_circuit.produces_with_aux(i, z) == self.step_circuit.produces(z),
            forall|i: int, z: Seq<int>, out: Seq<int>| #[trigger]
                self.step_circuit.step_with_aux(i, z, out) == self.step_circuit.step(z, out),
            forall|i: int, z: Seq<int>| #[trigger]
                self.step_circuit.output_with_aux(i, z) == self.step_circuit.output(z),
        ensures
            self.laid_out_aux(l) == self.laid_out(l),
            self.step_circuit.produces_with_aux(
                self.recorded_number(recording),
                self.recorded_start(recording),
            ) == self.step_circuit.produces(self.recorded_start(recording)),
            self.step_circuit.step_with_aux(v.i, step_start(v), z) == self.step_circuit.step(
                step_start(v),
                z,
            ),
            self.step_circuit.output_with_aux(v.i, step_start(v)) == self.step_circuit.output(
                step_start(v),
            ),
    {
        let plain = |l: Layout, i: int, z: Seq<int>| self.step_circuit.layout_after(l, z);
        let numbered = |l: Layout, i: int, z: Seq<int>|
            self.step_circuit.layout_after_with_aux(l, i, z);
        assert(plain =~= numbered);
    }

    /// Adds a step whose circuit sees the number of the step to a system and returns the state
    /// after it. The hash of that state becomes a public value. The equality polynomial must not
    /// vanish at the challenges that recorded inputs lead to.
    pub fn synthesize_aux(self, cs: &mut ConstraintSystem<E::Scalar>) -> (r: Result<
        Vec<AllocatedNum<E::Scalar>>,
        SynthesisError,
    >)
        requires
            old(cs).wf(),
            self.fits(),
            old(cs).records() && self.early_refusal(true) is None ==> self.fold_defined(),
        ensures
            self.refusal(old(cs).records()) is Some ==> refused_as(
                r,
                self.refusal(old(cs).records())->Some_0,
            ),
            self.refusal(old(cs).records()) is None ==> {
                let n = self.step_circuit.produces_with_aux(
                    self.recorded_number(old(cs).records()),
                    self.recorded_start(old(cs).records()),
                );
                &&& r is Ok <==> n == Some(self.step_circuit.width())
                &&& n is Some && r is Err ==> finished_short(r)
            },
            r is Ok ==> {
                &&& final(cs).wf()
                &&& final(cs).records() == old(cs).records()
                &&& r->Ok_0@.len() == self.step_circuit.width()
                &&& nums_valid(*final(cs), r->Ok_0@)
                &&& (final(cs).layout(), nums_at(r->Ok_0@, Valuation::Names)) == self.laid_out_aux(
                    old(cs).layout(),
                )
                &&& forall|a: spec_fn(Variable) -> int| #[trigger]
                    final(cs).met_by(a) ==> {
                        let e = Valuation::Assigned(a);
                        &&& old(cs).met_by(a)
                        &&& exists|v: StepVal, l: LookupVal, U_new: FoldedVal|
                            {
                                &&& self.step_shape(v, l)
                                &&& step_checks::<E>(v, l, self.k(), self.index_n_bits as nat)
                                &&& self.step_circuit.step_with_aux(
                                    v.i,
                                    step_start(v),
                                    nums_at(r->Ok_0@, e),
                                )
                                &&& #[trigger] next_instance::<E>(v, l, self.k(), U_new)
                                &&& final(cs).io(e) == old(cs).io(e).push(
                                    next_hash::<E>(v, nums_at(r->Ok_0@, e), U_new),
                                )
                            }
                    }
                &&& old(cs).records() ==> {
                    let e = Valuation::Recorded;
                    let v = self.step_val();
                    let l = self.lookup_val();
                    &&& final(cs).satisfied() <==> old(cs).satisfied() && step_checks::<E>(
                        v,
                        l,
                        self.k(),
                        self.index_n_bits as nat,
                    ) && self.step_circuit.step_with_aux(v.i, step_start(v), nums_at(r->Ok_0@, e))
                    &&& nums_at(r->Ok_0@, e) == self.step_circuit.output_with_aux(
                        v.i,
                        step_start(v),
                    )
                    &&& exists|U_new: FoldedVal|
                        {
                            &&& #[trigger] next_instance::<E>(v, l, self.k(), U_new)
                            &&& final(cs).io(e) == old(cs).io(e).push(
                                next_hash::<E>(v, nums_at(r->Ok_0@, e), U_new),
                            )
                        }
                }
            },
    {
        let ghost before = *cs;
        let arity: usize = self.step_circuit.arity();
        let (b, Ghost(l)) = self.prepare(cs)?;
        let ghost c1 = *cs;
        proof {
            if before.records() {
                assert(c1.admits(Valuation::Recorded));
            }
        }
        let z_next = self.step_circuit.synthesize_with_aux(cs, &b.witness.i, &b.z_input);
        let ghost c2 = *cs;
        proof {
            b.witness.lemma_valid_grows(c1, c2);
            b.U_new.lemma_valid_grows(c1, c2);
        }
        let z = b.finish(cs, z_next, arity)?;
        proof {
            self.lemma_step(before, c1, c2, *cs, b, l, z@);
            assert forall|a: spec_fn(Variable) -> int| #[trigger] cs.met_by(a) implies {
                let e = Valuation::Assigned(a);
                &&& before.met_by(a)
                &&& exists|v: StepVal, l: LookupVal, U_new: FoldedVal|
                    {
                        &&& self.step_shape(v, l)
                        &&& step_checks::<E>(v, l, self.k(), self.index_n_bits as nat)
                        &&& self.step_circuit.step_with_aux(v.i, step_start(v), nums_at(z@, e))
                        &&& #[trigger] next_instance::<E>(v, l, self.k(), U_new)
                        &&& cs.io(e) == before.io(e).push(next_hash::<E>(v, nums_at(z@, e), U_new))
                    }
            } by {
                let e = Valuation::Assigned(a);
                assert(cs.admits(e));
                assert(c2.admits(e));
                assert(c1.admits(e));
                assert(c2.met_by(a));
                assert(c1.met_by(a));
                assert(before.admits(e));
                let v = b.witness.at(e);
                assert(l(e) == l(e));
                assert(next_instance::<E>(v, l(e), self.k(), b.U_new.at(e)));
            }
            if before.records() {
                let e = Valuation::Recorded;
                assert(cs.admits(e));
                assert(c2.admits(e));
                assert(c1.admits(e));
                assert(next_instance::<E>(b.witness.at(e), l(e), self.k(), b.U_new.at(e)));
            }
        }
        Ok(z)
    }
}

impl<'a, E: Engine, SC: StepCircuit<E::Scalar>> NeutronAugmentedCircuit<'a, E, SC> {
    /// Whether a fold is reached at whose challenges the equality polynomial vanishes. Such a
    /// step cannot be added to a system that records values.
    pub fn fold_vanishes(&self) -> (r: bool)
        requires
            self.fits(),
        ensures
            r == (self.early_refusal(true) is None && !self.fold_defined()),
    {
        let mut cs = ConstraintSystem::<E::Scalar>::new();
        let w = match self.alloc_witness(&mut cs) {
            Ok(w) => w,
            Err(_) => {
                return false;
            },
        };
        let ghost c1 = cs;
        if self.lookup_fold_k == 0 {
            proof {
                let e = Valuation::Recorded;
                assert(plain_input(w.nifs, w.pp_digest, w.U, w.u, e) == step_input(
                    w.at(e),
                    no_lookups(),
                    0,
                ));
            }
            return w.nifs.eq_vanishes(&mut cs, &w.pp_digest, &w.U, &w.u);
        }
        if self.shape_registry.len() == 0 || self.index_n_bits == 0 || w.U.X.len() == 0
            || w.z_i.len() == 0 {
            return false;
        }
        let lw = match self.alloc_lookups(&mut cs) {
            Ok(lw) => lw,
            Err(_) => {
                return false;
            },
        };
        let running = match &w.U.T_lookup_per_table {
            Some(t) => copy_nums(t),
            None => {
                return false;
            },
        };
        if running.len() != self.lookup_fold_k {
            return false;
        }
        proof {
            w.lemma_valid_grows(c1, cs);
            let e = Valuation::Recorded;
            assert(multi_table_input(
                plain_input(w.nifs, w.pp_digest, w.U, w.u, e),
                lw.lookups,
                payloads_at(lw.tables@, e),
                nums_at(running@, e),
                e,
            ) == step_input(w.at(e), lw.at(e), self.k()));
        }
        w.nifs.eq_vanishes_with_lookups(
            &mut cs,
            &w.pp_digest,
            &w.U,
            &w.u,
            &lw.lookups,
            &lw.tables,
            &running,
        )
    }
}

} // verus!
