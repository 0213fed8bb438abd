//! How a step is laid out: which numbers and constraints it adds to a system, whatever the values.

use crate::circuit::lookup::{fresh_polys, fresh_table};
use crate::circuit::nifs::lay_verify;
use crate::circuit::r1cs::fresh_r1cs;
use crate::circuit::relation::{
    default_names, folded_size, fresh_folded, fresh_points, lay_default, lay_select_folded,
    shape_of, FoldedShape,
};
use crate::circuit::{
    no_lookups, renewed, some_tables, state_inputs, step_input, LookupVal, StepVal,
};
use crate::engine::{Engine, NUM_HASH_BITS, POINT_LIMBS};
use crate::field::PrimeField;
use crate::frontend::{empty_layout, fresh, lay_public, less, once, unit, Layout};
use crate::gadgets::{lay_equals, lay_product, lay_selects, lay_zero};
use crate::point::absorbs;
use crate::relation::{default_folded, FoldedVal};
use crate::shape_registry::lay_registered;
use crate::step_circuit::StepCircuit;
use vstd::prelude::*;

verus! {

/// The dimensions of a step.
#[verifier::ext_equal]
pub struct StepDims {
    /// The number of tables.
    pub k: nat,
    /// The length of the registry.
    pub registry: nat,
    /// The number of bits of an index into the registry.
    pub n_bits: nat,
    /// The width of a state.
    pub width: nat,
    /// The shape of the running instance.
    pub U: FoldedShape,
    /// The number of value columns, table by table.
    pub columns: Seq<nat>,
    /// The table whose running claim is taken up with an offset, if any.
    pub offset: Option<nat>,
}

/// How many numbers stand before the blindings of a step.
pub open spec fn head_size(d: StepDims) -> nat {
    2 + 2 * d.width + folded_size(d.U)
}

/// How many numbers the inputs of a step have.
pub open spec fn witness_size(d: StepDims) -> nat {
    head_size(d) + (if d.offset is Some {
        46nat
    } else {
        45nat
    })
}

/// The names of the running instance of a step. A claim with an offset is a number of its own.
pub open spec fn running_names(start: nat, d: StepDims) -> FoldedVal {
    let v = fresh_folded(start + 2 + 2 * d.width, d.U);
    match d.offset {
        Some(idx) => FoldedVal {
            T_lookup: Some(v.T_lookup->Some_0.update(idx as int, (start + head_size(d)) as int)),
            ..v
        },
        None => v,
    }
}

/// The names of the inputs of a step.
pub open spec fn witness_names(start: nat, d: StepDims) -> StepVal {
    let a = (start + witness_size(d) - 45) as nat;
    StepVal {
        pp: start as int,
        i: start + 1int,
        z0: fresh(start + 2, d.width),
        zi: fresh(start + 2 + d.width, d.width),
        U: running_names(start, d),
        r_i: a as int,
        r_next: a + 1int,
        u: fresh_r1cs(a + 2),
        comm_E: fresh(a + 12, POINT_LIMBS as nat),
        poly: fresh(a + 21, 6),
        comm_W_fold: fresh(a + 27, POINT_LIMBS as nat),
        comm_E_fold: fresh(a + 36, POINT_LIMBS as nat),
    }
}

/// How many numbers the public side of the first `n` tables has.
pub open spec fn tables_size(columns: Seq<nat>, n: nat) -> nat
    decreases n,
{
    if n == 0 {
        0
    } else {
        tables_size(columns, (n - 1) as nat) + 18 + 9 * columns[n - 1]
    }
}

/// How many numbers the lookups of a step have.
pub open spec fn lookup_size(d: StepDims) -> nat {
    d.registry + 42 * d.k + tables_size(d.columns, d.k)
}

/// The names of the lookups of a step.
pub open spec fn lookup_names(start: nat, d: StepDims) -> LookupVal {
    let m = start + d.registry;
    LookupVal {
        registry: fresh(start, d.registry),
        tables: Seq::new(
            d.k,
            |j: int|
                fresh_table(m + 42 * d.k + tables_size(d.columns, j as nat), d.columns[j]),
        ),
        polys: fresh_polys(m, d.k),
        inv_w: fresh_points(m + 6 * d.k, d.k),
        inv_t: fresh_points(m + 15 * d.k, d.k),
        comm_L_fold: fresh_points(m + 24 * d.k, d.k),
        comm_ts_fold: fresh_points(m + 33 * d.k, d.k),
    }
}

/// What a system becomes when a state is hashed in it, and the name of the hash.
pub open spec fn lay_hash<E: Engine>(
    l: Layout,
    pp: int,
    i: int,
    z0: Seq<int>,
    z: Seq<int>,
    U: FoldedVal,
    r: int,
) -> (Layout, int) {
    let log = absorbs(state_inputs(pp, i, z0, z, U, r));
    (E::squeeze_layout(l, log, NUM_HASH_BITS), E::squeeze_name(l, log, NUM_HASH_BITS))
}

/// What a system becomes with the fold of a step with lookups, and the names of the folded
/// instance.
#[verifier::opaque]
pub open spec fn lay_lookup_fold<E: Engine>(l: Layout, v: StepVal, d: StepDims) -> (
    Layout,
    FoldedVal,
) {
    let t = lookup_names(l.aux, d);
    let l1 = lay_registered(
        E::Scalar::modulus(),
        l.more(lookup_size(d)),
        v.pp,
        v.zi.last(),
        t.registry,
        d.n_bits,
    );
    let (l2, out, t_outs) = lay_verify::<E>(
        l1,
        step_input(v, t, d.k),
        v.comm_W_fold,
        v.comm_E_fold,
    );
    (l2, renewed(out, t_outs, t, d.k))
}

/// What a system becomes with the part of a step that comes after another one: the names of the
/// folded instance, and of the bit that says whether the hash is the one handed on.
#[verifier::opaque]
pub open spec fn lay_non_base<E: Engine>(l: Layout, v: StepVal, d: StepDims) -> (
    Layout,
    FoldedVal,
    int,
) {
    let p = E::Scalar::modulus();
    let (l1, h) = lay_hash::<E>(l, v.pp, v.i, v.z0, v.zi, v.U, v.r_i);
    let l2 = lay_equals(p, l1, v.u.X, h);
    if d.k > 0 {
        let (l3, U) = lay_lookup_fold::<E>(l2, v, d);
        (l3, U, l1.aux as int)
    } else {
        let (l3, U, _) = lay_verify::<E>(
            l2,
            step_input(v, no_lookups(), 0),
            v.comm_W_fold,
            v.comm_E_fold,
        );
        (l3, U, l1.aux as int)
    }
}

/// The names of what a step hands to its circuit.
pub struct PreparedNames {
    pub witness: StepVal,
    pub U_new: FoldedVal,
    pub i_new: int,
    pub z_input: Seq<int>,
}

/// What a system becomes with everything of a step that comes before the step circuit.
#[verifier::opaque]
pub open spec fn lay_prepare<E: Engine>(l: Layout, d: StepDims) -> (Layout, PreparedNames) {
    let p = E::Scalar::modulus();
    let tables = some_tables(d.k);
    let v = witness_names(l.aux, d);
    let l1 = l.more(witness_size(d));
    let l2 = lay_zero(l1);
    let l3 = lay_equals(p, l2, v.i, l1.aux as int);
    let base = once(l2.aux as int);
    let l4 = lay_default(l3, tables);
    let (l5, U, pass) = lay_non_base::<E>(l4, v, d);
    let l6 = lay_product(l5, less(p, unit(), pass), less(p, unit(), l2.aux as int));
    let l7 = l6.row(once(l5.aux as int), once(unit()), Seq::empty());
    let l8 = lay_select_folded(p, l7, default_names(l3, 1, tables), U, base);
    let l9 = l8.more(1).row(
        once(l8.aux as int),
        once(unit()),
        once(v.i).push((unit(), 1int)),
    );
    let l10 = lay_selects(p, l9, v.z0, v.zi, base, d.width);
    (
        l10,
        PreparedNames {
            witness: v,
            U_new: fresh_folded(l7.aux, shape_of(default_folded(1, tables))),
            i_new: l8.aux as int,
            z_input: fresh(l9.aux, d.width),
        },
    )
}

/// What a system becomes when the hash of what a step hands on is made public.
pub open spec fn lay_finish<E: Engine>(l: Layout, b: PreparedNames, z: Seq<int>) -> Layout {
    let v = b.witness;
    let (l1, h) = lay_hash::<E>(l, v.pp, b.i_new, v.z0, z, b.U_new, v.r_next);
    lay_public(l1, h)
}

/// What a system becomes when a step is added to it, and the names of the state after the step.
/// Beside the dimensions of the step only the layout of the step circuit has a part in it: `after`
/// says what a system becomes with it, given the name of the number of the step and the names of
/// the state before it.
pub open spec fn lay_step<E: Engine>(
    l: Layout,
    d: StepDims,
    after: spec_fn(Layout, int, Seq<int>) -> (Layout, Seq<int>),
) -> (Layout, Seq<int>) {
    let (l1, b) = lay_prepare::<E>(l, d);
    let (l2, z) = after(l1, b.witness.i, b.z_input);
    (lay_finish::<E>(l2, b, z), z)
}

/// The dimensions of a step without inputs.
pub open spec fn shape_dims(k: nat, registry: nat, n_bits: nat, width: nat) -> StepDims {
    StepDims {
        k,
        registry,
        n_bits,
        width,
        U: shape_of(default_folded(1, some_tables(k))),
        columns: Seq::new(k, |j: int| 0nat),
        offset: None,
    }
}

/// The layout of a system that holds a step without inputs and nothing else.
pub open spec fn shape_layout<E: Engine, C: StepCircuit<E::Scalar>>(
    circuit: C,
    k: nat,
    registry: nat,
    n_bits: nat,
) -> Layout {
    lay_step::<E>(
        empty_layout(),
        shape_dims(k, registry, n_bits, circuit.width()),
        |l: Layout, i: int, z: Seq<int>| circuit.layout_after(l, z),
    ).0
}

} // verus!
