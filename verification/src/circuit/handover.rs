//! What a step of a chain demands of the state that it is handed, and what it hands on.

use super::nifs::{fold_checks, folds_to, r_b_log, rho_log};
use super::{
    next_hash, next_instance, refused_as, renewed, state_hash, step_checks, step_input, step_start,
    LookupVal, NeutronAugmentedCircuit, StepVal,
};
use crate::challenges::law_fold_said;
use crate::engine::{identity_coordinates, Engine, Group};
use crate::errors::SynthesisError;
use crate::field::PrimeField;
use crate::poly::{law_peval_sum, peval, vals};
use crate::relation::{or_empty, FoldedVal, NIFS};
use crate::shape_registry::{law_registered_at_index, registered};
use crate::step_circuit::StepCircuit;
use crate::sums::{lemma_sum_same, sum};
use vstd::arithmetic::power::pow;
use vstd::arithmetic::power2::pow2;
use vstd::prelude::*;

verus! {

/// What a step demands. The fold of the instance handed over into the running instance is checked,
/// on the digest, both instances, the whole message of the prover and, where there are tables, the
/// running claims. With tables, the digest stands in the registry at the position that the last
/// number of the state names. And from the second step on, the public value of the instance handed
/// over is the hash of the state that the step is given.
pub proof fn law_step_demands<E: Engine>(v: StepVal, l: LookupVal, k: nat, n_bits: nat)
    requires
        l.registry.len() <= E::Scalar::modulus(),
    ensures
        step_checks::<E>(v, l, k, n_bits) <==> {
            let x = step_input(v, l, k);
            &&& fold_checks::<E>(x)
            &&& k > 0 ==> {
                let index = v.zi.last();
                &&& 0 <= index < l.registry.len()
                &&& index < pow2(n_bits)
                &&& l.registry[index] == v.pp
            }
            &&& v.i != 0 ==> v.u.X == state_hash::<E>(v.pp, v.i, v.z0, v.zi, v.U, v.r_i)
        },
        ({
            let x = step_input(v, l, k);
            &&& x.pp == v.pp
            &&& x.U1 == v.U
            &&& x.U2 == v.u
            &&& x.comm_E == v.comm_E
            &&& x.poly == v.poly
            &&& x.tables == l.tables
            &&& x.polys == l.polys
            &&& x.inv_w == l.inv_w
            &&& x.inv_t == l.inv_t
            &&& k > 0 ==> x.running == or_empty(v.U.T_lookup)
        }),
{
    law_registered_at_index(E::Scalar::modulus(), v.pp, v.zi.last(), l.registry, n_bits);
}

/// The first step starts from the first state and hands on a running instance that holds nothing:
/// neutral commitments, and zero in every claim and value.
pub proof fn law_first_step_resets<E: Engine>(v: StepVal, l: LookupVal, k: nat, U_new: FoldedVal)
    requires
        v.i == 0,
        next_instance::<E>(v, l, k, U_new),
    ensures
        step_start(v) == v.z0,
        U_new.comm_W == identity_coordinates(),
        U_new.comm_E == identity_coordinates(),
        U_new.T == 0,
        U_new.u == 0,
        U_new.X == seq![0int],
        k == 0 ==> U_new.T_lookup is None && U_new.comm_L is None && U_new.comm_ts is None,
        k > 0 ==> {
            &&& U_new.T_lookup is Some
            &&& U_new.comm_L is Some
            &&& U_new.comm_ts is Some
            &&& U_new.T_lookup->Some_0.len() == k
            &&& U_new.comm_L->Some_0.len() == k
            &&& U_new.comm_ts->Some_0.len() == k
            &&& forall|j: int|
                0 <= j < k ==> {
                    &&& #[trigger] U_new.T_lookup->Some_0[j] == 0
                    &&& U_new.comm_L->Some_0[j] == identity_coordinates()
                    &&& U_new.comm_ts->Some_0[j] == identity_coordinates()
                }
        },
{
    assert(U_new.X =~= seq![0int]);
}

/// A later step starts from the state that it is handed and hands on the fold of the instance
/// handed over into the running instance: the folded commitments that it is given, the scalar and
/// the public value on the lines at the last challenge, and claims that are carried by the round
/// polynomials. With tables, the claims are renewed and the folded commitments of the tables are
/// those that the step is given; without, the running data stays as it was.
pub proof fn law_later_step_folds<E: Engine>(v: StepVal, l: LookupVal, k: nat, U_new: FoldedVal)
    requires
        v.i != 0,
        next_instance::<E>(v, l, k, U_new),
    ensures
        ({
            let p = E::Scalar::modulus();
            let x = step_input(v, l, k);
            let rho = E::challenge(rho_log(x), 128);
            let r = E::challenge(r_b_log(x), 128);
            let eq = (1 - rho) * (1 - r) + rho * r;
            &&& step_start(v) == v.zi
            &&& U_new.comm_W == v.comm_W_fold
            &&& U_new.comm_E == v.comm_E_fold
            &&& U_new.u == ((1 - r) * v.U.u + r) % p
            &&& U_new.X.len() == 1
            &&& U_new.X[0] == ((1 - r) * v.U.X[0] + r * v.u.X) % p
            &&& 0 <= U_new.T < p
            &&& (U_new.T * eq) % p == sum(v.poly.len(), |i: int| v.poly[i] * pow(r, i as nat)) % p
            &&& k == 0 ==> {
                &&& U_new.T_lookup == v.U.T_lookup
                &&& U_new.comm_L == v.U.comm_L
                &&& U_new.comm_ts == v.U.comm_ts
            }
            &&& k > 0 ==> {
                &&& U_new.comm_L == Some(l.comm_L_fold)
                &&& U_new.comm_ts == Some(l.comm_ts_fold)
                &&& U_new.T_lookup is Some
                &&& U_new.T_lookup->Some_0.len() == l.polys.len()
                &&& forall|j: int|
                    0 <= j < l.polys.len() ==> {
                        &&& 0 <= #[trigger] U_new.T_lookup->Some_0[j] < p
                        &&& (U_new.T_lookup->Some_0[j] * eq) % p == peval(l.polys[j], r) % p
                    }
            }
        }),
{
    let p = E::Scalar::modulus();
    let x = step_input(v, l, k);
    let r = E::challenge(r_b_log(x), 128);
    let rho = E::challenge(rho_log(x), 128);
    let eq = (1 - rho) * (1 - r) + rho * r;
    let (out, t_outs) = choose|out: FoldedVal, t_outs: Seq<int>| #[trigger]
        folds_to::<E>(x, v.comm_W_fold, v.comm_E_fold, out, t_outs) && U_new == renewed(
            out,
            t_outs,
            l,
            k,
        );
    law_fold_said::<E>(x, v.comm_W_fold, v.comm_E_fold, out, t_outs);
    if k > 0 {
        assert forall|j: int| 0 <= j < l.polys.len() implies {
            &&& 0 <= #[trigger] t_outs[j] < p
            &&& (t_outs[j] * eq) % p == peval(l.polys[j], r) % p
        } by {
            let c = x.polys[j];
            law_peval_sum(c, r);
            lemma_sum_same(
                c.len(),
                |i: int| c[i] * pow(r, i as nat),
                |i: int| x.polys[j][i] * pow(r, i as nat),
            );
        }
    }
}

/// What a step publishes is what the next step is held to: a step that is given the same digest and
/// first state, the next number, the state and the running instance that the last step arrived at,
/// and the number drawn there, accepts no other public value of the instance handed over than the
/// one that the last step published.
pub proof fn law_handed_over<E: Engine>(
    v: StepVal,
    z: Seq<int>,
    U_new: FoldedVal,
    w: StepVal,
    l: LookupVal,
    k: nat,
    n_bits: nat,
)
    requires
        w.pp == v.pp,
        w.i == (v.i + 1) % E::Scalar::modulus(),
        w.i != 0,
        w.z0 == v.z0,
        w.zi == z,
        w.U == U_new,
        w.r_i == v.r_next,
    ensures
        step_start(w) == z,
        step_checks::<E>(w, l, k, n_bits) <==> {
            &&& w.u.X == next_hash::<E>(v, z, U_new)
            &&& fold_checks::<E>(step_input(w, l, k))
            &&& k > 0 ==> registered(E::Scalar::modulus(), w.pp, z.last(), l.registry, n_bits)
        },
        next_hash::<E>(v, z, U_new) == state_hash::<E>(
            v.pp,
            (v.i + 1) % E::Scalar::modulus(),
            v.z0,
            z,
            U_new,
            v.r_next,
        ),
{
}

/// What is put into a step is what it works on: the digest, the number of the step, as many numbers
/// of the first and of the current state as a state has, the running instance, the numbers drawn
/// for both hashes, the instance handed over and the message of the prover, with the round
/// polynomials filled up to six coefficients. Of what is left out, states and numbers are taken as
/// zero and points as neutral.
pub proof fn law_inputs_worked_on<E: Engine, SC: StepCircuit<E::Scalar>>(
    a: NeutronAugmentedCircuit<E, SC>,
)
    requires
        a.fits(),
        a.inputs is Some,
        a.inputs->Some_0.corrupt_t_lookup_at_index is None,
    ensures
        ({
            let x = a.inputs->Some_0;
            let v = a.step_val();
            let n = a.step_circuit.width();
            &&& v.pp == x.pp_digest.val()
            &&& v.i == x.i.val()
            &&& v.z0.len() == n
            &&& forall|k: int| 0 <= k < n ==> #[trigger] v.z0[k] == x.z0@[k].val()
            &&& v.zi.len() == n
            &&& forall|k: int|
                0 <= k < n ==> #[trigger] v.zi[k] == match x.zi {
                    Some(z) => z@[k].val(),
                    None => 0,
                }
            &&& x.U is Some ==> v.U == x.U->Some_0@
            &&& v.r_i == match x.ri {
                Some(r) => r.val(),
                None => 0,
            }
            &&& v.r_next == x.r_next.val()
            &&& x.u is Some ==> v.u.comm_W == E::GE::coordinates(x.u->Some_0.comm_W.log())
            &&& x.u is Some ==> v.u.X == x.u->Some_0.X@[0].val()
            &&& x.u is None ==> v.u.comm_W == identity_coordinates() && v.u.X == 0
            &&& v.poly.len() == 6
            &&& x.nifs is Some ==> {
                let m = x.nifs->Some_0;
                &&& v.comm_E == E::GE::coordinates(m.comm_E.log())
                &&& forall|k: int|
                    0 <= k < 6 ==> #[trigger] v.poly[k] == if k < m.poly.coeffs@.len() {
                        m.poly.coeffs@[k].val()
                    } else {
                        0
                    }
            }
            &&& x.comm_W_fold is Some ==> v.comm_W_fold == E::GE::coordinates(
                x.comm_W_fold->Some_0.log(),
            )
            &&& x.comm_E_fold is Some ==> v.comm_E_fold == E::GE::coordinates(
                x.comm_E_fold->Some_0.log(),
            )
        }),
{
}

/// What is put into a step on its tables is what it works on: the registry, and for each table the
/// public side of its lookups, its round polynomial, filled up to six coefficients, the commitments
/// to its inverses and its folded commitments.
pub proof fn law_lookups_worked_on<E: Engine, SC: StepCircuit<E::Scalar>>(
    a: NeutronAugmentedCircuit<E, SC>,
    j: int,
)
    requires
        a.fits(),
        a.inputs is Some,
        a.inputs->Some_0.nifs is Some,
        a.inputs->Some_0.public_bundles_multi_table is Some,
        0 <= j < a.lookup_fold_k,
        fold_message_counted(a.inputs->Some_0.nifs->Some_0, j),
        j < a.inputs->Some_0.public_bundles_multi_table->Some_0@.len(),
    ensures
        ({
            let l = a.lookup_val();
            let m = a.inputs->Some_0.nifs->Some_0;
            let t = a.inputs->Some_0.public_bundles_multi_table->Some_0@[j];
            let c = m.poly_lookup->Some_0@[j].coeffs@;
            &&& l.registry == vals(a.shape_registry@)
            &&& l.tables.len() == a.lookup_fold_k
            &&& l.polys.len() == a.lookup_fold_k
            &&& l.tables[j].comm_L == E::GE::coordinates(t.comm_L.log())
            &&& l.tables[j].comm_ts == E::GE::coordinates(t.comm_ts.log())
            &&& l.tables[j].comm_values.len() == t.comm_values@.len()
            &&& forall|k: int|
                0 <= k < t.comm_values@.len() ==> (#[trigger] l.tables[j].comm_values[k])
                    == E::GE::coordinates(t.comm_values@[k].log())
            &&& l.polys[j].len() == 6
            &&& forall|k: int|
                0 <= k < 6 ==> #[trigger] l.polys[j][k] == if k < c.len() {
                    c[k].val()
                } else {
                    0
                }
            &&& l.inv_w[j] == E::GE::coordinates(m.comm_inv_w->Some_0@[j].log())
            &&& l.inv_t[j] == E::GE::coordinates(m.comm_inv_t->Some_0@[j].log())
            &&& l.comm_L_fold[j] == E::GE::coordinates(
                m.comm_L_fold_per_table->Some_0@[j].log(),
            )
            &&& l.comm_ts_fold[j] == E::GE::coordinates(
                m.comm_ts_fold_per_table->Some_0@[j].log(),
            )
        }),
{
}

/// A message has an entry for table `j` everywhere.
pub open spec fn fold_message_counted<E: Engine>(m: NIFS<E>, j: int) -> bool {
    &&& m.poly_lookup is Some && j < m.poly_lookup->Some_0@.len()
    &&& m.comm_inv_w is Some && j < m.comm_inv_w->Some_0@.len()
    &&& m.comm_inv_t is Some && j < m.comm_inv_t->Some_0@.len()
    &&& m.comm_L_fold_per_table is Some && j < m.comm_L_fold_per_table->Some_0@.len()
    &&& m.comm_ts_fold_per_table is Some && j < m.comm_ts_fold_per_table->Some_0@.len()
}

/// A step is taken up exactly if values are put in where they are recorded; with tables, there are
/// a registry, a width of the index and a place for it in the state; and a running instance that
/// is put in has one public value and running claims for exactly the tables, without tables none
/// and no commitments of tables either. A step that is not taken up is an error.
pub proof fn law_taken_up_exactly<E: Engine, SC: StepCircuit<E::Scalar>>(
    a: NeutronAugmentedCircuit<E, SC>,
    recording: bool,
    r: Result<Seq<int>, SynthesisError>,
)
    requires
        a.inputs is Some ==> a.inputs->Some_0.corrupt_t_lookup_at_index is None,
    ensures
        a.refusal(recording) is None <==> {
            let k = a.lookup_fold_k;
            let U = a.inputs->Some_0.U->Some_0;
            &&& recording ==> a.inputs is Some
            &&& k > 0 ==> {
                &&& a.shape_registry@.len() > 0
                &&& a.index_n_bits > 0
                &&& a.step_circuit.width() > 0
            }
            &&& a.inputs is Some && a.inputs->Some_0.U is Some ==> {
                &&& U.X@.len() == 1
                &&& k > 0 ==> U.T_lookup is Some && U.T_lookup->Some_0@.len() == k
                &&& k == 0 ==> U.T_lookup is None && U.comm_L is None && U.comm_ts is None
            }
        },
        a.refusal(recording) is Some && refused_as(r, a.refusal(recording)->Some_0) ==> r is Err,
{
    if a.inputs is Some && a.inputs->Some_0.U is Some {
        let U = a.inputs->Some_0.U->Some_0;
        assert(vals(U.X@).len() == U.X@.len());
        if U.T_lookup is Some {
            assert(vals(U.T_lookup->Some_0@).len() == U.T_lookup->Some_0@.len());
        }
    }
}

} // verus!
