//! The public parameters of a chain of folds.

use crate::circuit::layout::{shape_dims, shape_layout, StepDims};
use crate::circuit::nifs::fold_checks;
use crate::circuit::{
    next_hash, next_instance, state_hash, step_checks, step_input, step_start, LookupVal,
    NeutronAugmentedCircuit, StepVal,
};
use crate::columns::LookupShape;
use crate::commitment::CommitmentKey;
use crate::compressed_snark::closing::key_fits;
use crate::digest::{digest, digest_of};
use crate::engine::{Engine, Group};
use crate::errors::NovaError;
use crate::field::{lemma_reduced, PrimeField};
use crate::frontend::{
    all_reduced, empty_layout, read_name, reading, ConstraintSystem, Layout, Valuation, Variable,
};
use crate::gadgets::nums_at;
use crate::poly::vals;
use crate::random::random_scalar;
use crate::relation::{FoldedVal, R1CSInstance};
use crate::shape_registry::registered;
use crate::step_circuit::StepCircuit;
use crate::structure::{full_vector, mat_fits, mat_row, R1CSShape, R1CSWitness, Structure};
use vstd::prelude::*;

verus! {

/// The public parameters: the commitment key, the matrices of the augmented circuit and the
/// tables.
pub struct PublicParams<E: Engine, C: StepCircuit<E::Scalar>> {
    /// The width of a state.
    pub F_arity: usize,
    pub ck: CommitmentKey<E>,
    pub structure: Structure<E>,
    /// The digests that the parameters may have, position by position. It is no part of the
    /// digest, so that it may hold the digest.
    pub shape_registry: Vec<E::Scalar>,
    /// The number of tables.
    pub lookup_fold_k: usize,
    /// The number of bits that a position in the registry is written with.
    pub index_n_bits: usize,
    pub lookup_shape: Option<LookupShape<E>>,
    /// The digest of the key and the matrices.
    pub pp_digest: E::Scalar,
    pub _p: std::marker::PhantomData<C>,
}

/// The label of the digest of the parameters.
pub const PARAMETERS: &'static str = "Neutron_PublicParams";

/// The public value `x` is that of a step: there are a state before it, a state after it and a
/// folded instance, such that the step leads from the one to the other, its demands are met, and
/// `x` is the hash of what it hands on.
pub open spec fn proves_step<E: Engine, C: StepCircuit<E::Scalar>>(
    circuit: C,
    k: nat,
    n_bits: nat,
    x: int,
) -> bool {
    exists|v: StepVal, l: LookupVal, U: FoldedVal, z: Seq<int>|
        {
            &&& step_checks::<E>(v, l, k, n_bits)
            &&& #[trigger] circuit.step(step_start(v), z)
            &&& #[trigger] next_instance::<E>(v, l, k, U)
            &&& x == next_hash::<E>(v, z, U)
        }
}

/// Whatever meets the constraints is a step of the circuit.
pub open spec fn encodes<E: Engine, C: StepCircuit<E::Scalar>>(
    S: R1CSShape<E>,
    circuit: C,
    k: nat,
    n_bits: nat,
) -> bool {
    forall|z: Seq<int>|
        z.len() == S.columns() && all_reduced(E::Scalar::modulus(), z) && z[S.num_vars as int] == 1
            && #[trigger] S.holds(z) ==> proves_step::<E, C>(
            circuit,
            k,
            n_bits,
            z[S.num_vars + 1],
        )
}

/// The matrices are those of a layout: a vector meets them if and only if it meets the layout's
/// constraints.
pub open spec fn of_layout<E: Engine>(S: R1CSShape<E>, l: Layout) -> bool {
    let p = E::Scalar::modulus();
    &&& S.num_vars == l.aux
    &&& S.num_io == l.inputs
    &&& forall|z: Seq<int>|
        z.len() == S.columns() && all_reduced(p, z) && z[S.num_vars as int] == 1 ==> (
        #[trigger] S.holds(z) <==> l.met_by(p, read_name(S.num_vars as nat, z)))
}

/// The augmented circuit can be laid out: the step yields a state, and tables come with a
/// registry, an index and a state that has a place for it.
pub open spec fn can_be_laid_out<F: PrimeField, C: StepCircuit<F>>(
    circuit: C,
    registry: nat,
    k: nat,
    n_bits: nat,
) -> bool {
    &&& k > 0 ==> registry > 0 && n_bits > 0 && circuit.width() > 0
    &&& circuit.produces(None) == Some(circuit.width())
}

/// A commitment key of random generators.
pub fn random_key<E: Engine>(n: usize) -> (r: Result<CommitmentKey<E>, NovaError>)
    ensures
        r is Err ==> r == Err::<CommitmentKey<E>, NovaError>(NovaError::RandomnessUnavailable),
        r is Ok ==> r->Ok_0.ck@.len() == n,
{
    let base = E::GE::base();
    let h = base.scale(random_scalar::<E::Scalar>()?);
    let mut ck: Vec<E::GE> = Vec::new();
    let mut i: usize = 0;
    while i < n
        invariant
            i <= n,
            ck@.len() == i,
        decreases n - i,
    {
        let x = random_scalar::<E::Scalar>()?;
        ck.push(base.scale(x));
        i = i + 1;
    }
    Ok(CommitmentKey { ck, h })
}

/// More rows than a matrix has are zero.
proof fn lemma_row_beyond<F: PrimeField>(
    m: Seq<(usize, usize, F)>,
    rows: nat,
    columns: nat,
    z: Seq<int>,
    i: int,
)
    requires
        mat_fits(m, rows, columns),
        i >= rows,
    ensures
        mat_row(m, z, i) == 0,
    decreases m.len(),
{
    if m.len() > 0 {
        assert(m[m.len() - 1].0 < rows);
        assert forall|k: int| 0 <= k < m.drop_last().len() implies (
        #[trigger] m.drop_last()[k]).0 < rows && m.drop_last()[k].1 < columns by {
            assert(m[k] == m.drop_last()[k]);
        }
        lemma_row_beyond(m.drop_last(), rows, columns, z, i);
    }
}

/// Constraints without terms change nothing.
proof fn lemma_padding_holds<E: Engine>(S: R1CSShape<E>, T: R1CSShape<E>, z: Seq<int>)
    requires
        S.wf(),
        T.A@ == S.A@,
        T.B@ == S.B@,
        T.C@ == S.C@,
        T.num_cons >= S.num_cons,
    ensures
        T.holds(z) == S.holds(z),
{
    let p = E::Scalar::modulus();
    if T.holds(z) {
        assert forall|i: int| 0 <= i < S.num_cons implies ((#[trigger] mat_row(S.A@, z, i))
            * mat_row(S.B@, z, i)) % p == mat_row(S.C@, z, i) % p by {
            assert((mat_row(T.A@, z, i) * mat_row(T.B@, z, i)) % p == mat_row(T.C@, z, i) % p);
        }
    }
    if S.holds(z) {
        assert forall|i: int| 0 <= i < T.num_cons implies ((#[trigger] mat_row(T.A@, z, i))
            * mat_row(T.B@, z, i)) % p == mat_row(T.C@, z, i) % p by {
            if i < S.num_cons {
                assert((mat_row(S.A@, z, i) * mat_row(S.B@, z, i)) % p == mat_row(S.C@, z, i) % p);
            } else {
                let (r, c) = (S.num_cons as nat, S.columns());
                lemma_row_beyond(S.A@, r, c, z, i);
                lemma_row_beyond(S.B@, r, c, z, i);
                lemma_row_beyond(S.C@, r, c, z, i);
                assert(0 * mat_row(T.B@, z, i) == 0);
            }
        }
    }
}

/// The larger of two numbers.
fn larger(a: usize, b: usize) -> (r: usize)
    ensures
        r >= a,
        r >= b,
        r == a || r == b,
{
    if a < b {
        b
    } else {
        a
    }
}

impl<E: Engine, C: StepCircuit<E::Scalar>> PublicParams<E, C> {
    /// The digest of the parameters.
    pub open spec fn digest_val(self) -> int {
        self.pp_digest.val()
    }

    /// The dimensions fit, and the digest is that of the key and the matrices.
    pub open spec fn wf(self) -> bool {
        &&& self.structure.wf()
        &&& key_fits(self.ck, self.structure)
        &&& self.structure.S.num_io == 1
        &&& self.digest_val() == digest_of(PARAMETERS@, self.ck, self.structure.S)
    }

    /// The digest of the parameters stands in the registry at the position that the index names.
    pub open spec fn registered_at(self, index: int) -> bool {
        registered(
            E::Scalar::modulus(),
            self.digest_val(),
            index,
            vals(self.shape_registry@),
            self.index_n_bits as nat,
        )
    }

    /// The dimensions of a step without inputs, for a circuit.
    pub open spec fn dims(self, circuit: C) -> StepDims {
        shape_dims(
            self.lookup_fold_k as nat,
            self.shape_registry@.len(),
            self.index_n_bits as nat,
            circuit.width(),
        )
    }

    /// The matrices are those of the augmented circuit around the given circuit, laid out without
    /// inputs.
    pub open spec fn lays_out(self, circuit: C) -> bool {
        of_layout(
            self.structure.S,
            shape_layout::<E, C>(
                circuit,
                self.lookup_fold_k as nat,
                self.shape_registry@.len(),
                self.index_n_bits as nat,
            ),
        )
    }

    /// The digest of well-formed parameters is that of their commitment key and their matrices, the
    /// matrices have one public value and as many rows as the grid has cells, and the key is long
    /// enough for the private values, the constraints and the weights.
    pub proof fn law_parameters_kept(self)
        requires
            self.wf(),
        ensures
            self.pp_digest.val() == digest_of(
                "Neutron_PublicParams"@,
                self.ck,
                self.structure.S,
            ),
            self.structure.S.num_io == 1,
            self.structure.S.num_cons == self.structure.left * self.structure.right,
            self.ck.ck@.len() >= self.structure.S.num_vars,
            self.ck.ck@.len() >= self.structure.S.num_cons,
            self.ck.ck@.len() >= self.structure.left + self.structure.right,
            forall|i: int|
                0 <= i < self.structure.S.A@.len() ==> (#[trigger] self.structure.S.A@[i]).0
                    < self.structure.S.num_cons && self.structure.S.A@[i].1
                    < self.structure.S.num_vars + 2,
            forall|i: int|
                0 <= i < self.structure.S.B@.len() ==> (#[trigger] self.structure.S.B@[i]).0
                    < self.structure.S.num_cons && self.structure.S.B@[i].1
                    < self.structure.S.num_vars + 2,
            forall|i: int|
                0 <= i < self.structure.S.C@.len() ==> (#[trigger] self.structure.S.C@[i]).0
                    < self.structure.S.num_cons && self.structure.S.C@[i].1
                    < self.structure.S.num_vars + 2,
    {
    }

    /// A step that is recorded and satisfied meets the matrices that come from laying the circuit
    /// out without inputs. The inputs must have the dimensions of no inputs: a running instance
    /// with one public value and data for each table, tables without value columns, and no claim
    /// with an offset.
    pub proof fn law_recorded_step_meets_shape(
        self,
        a: NeutronAugmentedCircuit<E, C>,
        cs: ConstraintSystem<E::Scalar>,
    )
        requires
            self.lays_out(*a.step_circuit),
            a.dims() == self.dims(*a.step_circuit),
            cs.wf(),
            cs.records(),
            cs.satisfied(),
            cs.layout() == a.laid_out(empty_layout()).0,
        ensures
            cs.private_values().len() == self.structure.S.num_vars,
            cs.io(Valuation::Recorded).len() == self.structure.S.num_io,
            self.structure.S.holds(
                full_vector(cs.private_values(), 1, cs.io(Valuation::Recorded)),
            ),
    {
        let n = self.structure.S.num_vars as nat;
        let z = full_vector(cs.private_values(), 1, cs.io(Valuation::Recorded));
        cs.lemma_layout_counts();
        cs.lemma_recorded_reading();
        cs.lemma_met_by_layout(n, z);
        assert(z == cs.private_values().push(1) + cs.io(Valuation::Recorded));
    }

    /// The digest of the parameters. The registry of shapes is no part of it.
    pub fn digest(&self) -> (r: E::Scalar)
        ensures
            r.val() == self.digest_val(),
    {
        self.pp_digest
    }

    /// The matrices of the augmented circuit.
    fn shape(
        circuit: &C,
        shape_registry: &Vec<E::Scalar>,
        lookup_fold_k: usize,
        index_n_bits: usize,
    ) -> (r: Result<R1CSShape<E>, NovaError>)
        ensures
            r is Err && r->Err_0 is Synthesis <==> !can_be_laid_out(
                *circuit,
                shape_registry@.len(),
                lookup_fold_k as nat,
                index_n_bits as nat,
            ),
            r is Err ==> r->Err_0 is Synthesis || r->Err_0 == NovaError::InvalidIndex,
            r is Ok ==> {
                &&& r->Ok_0.wf()
                &&& r->Ok_0.num_io == 1
                &&& r->Ok_0.num_cons <= usize::MAX / 4
                &&& encodes::<E, C>(
                    r->Ok_0,
                    *circuit,
                    lookup_fold_k as nat,
                    index_n_bits as nat,
                )
                &&& of_layout(
                    r->Ok_0,
                    shape_layout::<E, C>(
                        *circuit,
                        lookup_fold_k as nat,
                        shape_registry@.len(),
                        index_n_bits as nat,
                    ),
                )
            },
    {
        let ghost p = E::Scalar::modulus();
        let mut cs = ConstraintSystem::<E::Scalar>::new_shape();
        let ghost before = cs;
        let augmented = NeutronAugmentedCircuit::<E, C>::new(None, circuit).with_lookup_fold(
            lookup_fold_k,
            shape_registry.as_slice(),
            index_n_bits,
        );
        let outputs = match augmented.synthesize(&mut cs) {
            Ok(z) => z,
            Err(e) => {
                return Err(NovaError::Synthesis(e));
            },
        };
        let m = match cs.to_matrices() {
            Some(m) => m,
            None => {
                return Err(NovaError::InvalidIndex);
            },
        };
        if m.num_io != 1 || m.num_cons > usize::MAX / 4 {
            return Err(NovaError::InvalidIndex);
        }
        let S = R1CSShape {
            num_cons: m.num_cons,
            num_vars: m.num_vars,
            num_io: m.num_io,
            A: m.A,
            B: m.B,
            C: m.C,
        };
        proof {
            E::Scalar::lemma_modulus();
            let l = shape_layout::<E, C>(
                *circuit,
                lookup_fold_k as nat,
                shape_registry@.len(),
                index_n_bits as nat,
            );
            assert(augmented.dims() =~= shape_dims(
                lookup_fold_k as nat,
                shape_registry@.len(),
                index_n_bits as nat,
                circuit.width(),
            ));
            assert(cs.layout() == l);
            cs.lemma_layout_counts();
            assert forall|z: Seq<int>|
                z.len() == S.columns() && all_reduced(p, z) && z[S.num_vars as int] == 1 implies (
            #[trigger] S.holds(z) <==> l.met_by(p, read_name(S.num_vars as nat, z))) by {
                cs.lemma_met_by_layout(S.num_vars as nat, z);
                assert(m.holds(z) <==> cs.met_by(reading(cs.num_aux(), z)));
                if S.holds(z) {
                    assert forall|i: int| 0 <= i < m.num_cons implies ((
                    #[trigger] mat_row(m.A@, z, i)) * mat_row(m.B@, z, i)) % p == mat_row(
                        m.C@,
                        z,
                        i,
                    ) % p by {
                        assert((mat_row(S.A@, z, i) * mat_row(S.B@, z, i)) % p == mat_row(
                            S.C@,
                            z,
                            i,
                        ) % p);
                    }
                }
                if m.holds(z) {
                    assert forall|i: int| 0 <= i < S.num_cons implies ((
                    #[trigger] mat_row(S.A@, z, i)) * mat_row(S.B@, z, i)) % p == mat_row(
                        S.C@,
                        z,
                        i,
                    ) % p by {
                        assert((mat_row(m.A@, z, i) * mat_row(m.B@, z, i)) % p == mat_row(
                            m.C@,
                            z,
                            i,
                        ) % p);
                    }
                }
            }
            assert forall|z: Seq<int>|
                z.len() == S.columns() && all_reduced(p, z) && z[S.num_vars as int] == 1
                    && #[trigger] S.holds(z) implies proves_step::<E, C>(
                *circuit,
                lookup_fold_k as nat,
                index_n_bits as nat,
                z[S.num_vars + 1],
            ) by {
                assert(m.holds(z)) by {
                    assert forall|i: int| 0 <= i < m.num_cons implies ((
                    #[trigger] mat_row(m.A@, z, i)) * mat_row(m.B@, z, i)) % p == mat_row(
                        m.C@,
                        z,
                        i,
                    ) % p by {
                        assert((mat_row(S.A@, z, i) * mat_row(S.B@, z, i)) % p == mat_row(
                            S.C@,
                            z,
                            i,
                        ) % p);
                    }
                }
                let w = reading(cs.num_aux(), z);
                let e = Valuation::Assigned(w);
                assert(cs.met_by(w));
                let k = lookup_fold_k as nat;
                let (v, l, U) = choose|v: StepVal, l: LookupVal, U: FoldedVal|
                    {
                        &&& augmented.step_shape(v, l)
                        &&& step_checks::<E>(v, l, k, index_n_bits as nat)
                        &&& augmented.step_circuit.step(step_start(v), nums_at(outputs@, e))
                        &&& #[trigger] next_instance::<E>(v, l, k, U)
                        &&& cs.io(e) == before.io(e).push(
                            next_hash::<E>(v, nums_at(outputs@, e), U),
                        )
                    };
                cs.lemma_io(w, 0);
                assert(before.io(e).len() == 0);
                lemma_reduced(p, z[S.num_vars + 1]);
                assert(w(Variable::Input(0usize)) == z[S.num_vars + 1 + 0]);
                assert(circuit.step(step_start(v), nums_at(outputs@, e)));
            }
        }
        Ok(S)
    }

    /// The parameters for a circuit, with a random commitment key of at least `ck_floor`
    /// generators. It is an error if the circuit cannot be laid out, if it has more constraints
    /// or numbers than can be counted, or if there are no random numbers.
    pub fn setup(
        circuit: &C,
        ck_floor: usize,
        shape_registry: Vec<E::Scalar>,
        lookup_fold_k: usize,
        index_n_bits: usize,
        lookup_shape: Option<LookupShape<E>>,
    ) -> (r: Result<Self, NovaError>)
        ensures
            r is Err && r->Err_0 is Synthesis <==> !can_be_laid_out(
                *circuit,
                shape_registry@.len(),
                lookup_fold_k as nat,
                index_n_bits as nat,
            ),
            r is Err ==> r->Err_0 is Synthesis || r->Err_0 == NovaError::InvalidIndex || r->Err_0
                == NovaError::RandomnessUnavailable,
            r is Ok ==> {
                let pp = r->Ok_0;
                &&& pp.wf()
                &&& pp.F_arity == circuit.width()
                &&& pp.shape_registry == shape_registry
                &&& pp.lookup_fold_k == lookup_fold_k
                &&& pp.index_n_bits == index_n_bits
                &&& pp.lookup_shape == lookup_shape
                &&& pp.pp_digest.val() == digest_of(
                    "Neutron_PublicParams"@,
                    pp.ck,
                    pp.structure.S,
                )
                &&& pp.ck.ck@.len() >= ck_floor
                &&& {
                    ||| pp.ck.ck@.len() == ck_floor
                    ||| pp.ck.ck@.len() == pp.structure.S.num_cons
                    ||| pp.ck.ck@.len() == pp.structure.S.num_vars
                    ||| pp.ck.ck@.len() == pp.structure.left + pp.structure.right
                }
                &&& encodes::<E, C>(
                    pp.structure.S,
                    *circuit,
                    lookup_fold_k as nat,
                    index_n_bits as nat,
                )
                &&& pp.lays_out(*circuit)
            },
    {
        let S = match Self::shape(circuit, &shape_registry, lookup_fold_k, index_n_bits) {
            Ok(x) => x,
            Err(e) => {
                return Err(e);
            },
        };
        let structure = Structure::new(&S);
        let n1 = larger(structure.S.num_cons, structure.S.num_vars);
        let n2 = larger(n1, structure.left + structure.right);
        let ck = match random_key::<E>(larger(n2, ck_floor)) {
            Ok(x) => x,
            Err(e) => {
                return Err(e);
            },
        };
        let pp_digest = digest(PARAMETERS, &ck, &structure.S);
        proof {
            let p = E::Scalar::modulus();
            assert forall|z: Seq<int>| #[trigger] structure.S.holds(z) == S.holds(z) by {
                lemma_padding_holds(S, structure.S, z);
            }
            assert forall|z: Seq<int>|
                z.len() == structure.S.columns() && all_reduced(p, z)
                    && z[structure.S.num_vars as int] == 1 implies (#[trigger] structure.S.holds(z)
                <==> shape_layout::<E, C>(
                *circuit,
                lookup_fold_k as nat,
                shape_registry@.len(),
                index_n_bits as nat,
            ).met_by(p, read_name(structure.S.num_vars as nat, z))) by {
                assert(S.holds(z) == structure.S.holds(z));
            }
            assert forall|z: Seq<int>|
                z.len() == structure.S.columns() && all_reduced(p, z)
                    && z[structure.S.num_vars as int] == 1 && #[trigger] structure.S.holds(
                    z,
                ) implies proves_step::<E, C>(
                *circuit,
                lookup_fold_k as nat,
                index_n_bits as nat,
                z[structure.S.num_vars + 1],
            ) by {
                assert(S.holds(z) == structure.S.holds(z));
            }
        }
        Ok(
            PublicParams {
                F_arity: circuit.arity(),
                ck,
                structure,
                shape_registry,
                lookup_fold_k,
                index_n_bits,
                lookup_shape,
                pp_digest,
                _p: std::marker::PhantomData,
            },
        )
    }
}

/// A satisfied instance of the parameters of a circuit is a step of the circuit: there are values
/// of a step, a state that it leads to and a running instance that it hands on, such that the fold
/// is checked, the digest is registered where there are tables, from the second step on the
/// instance handed over carries the hash of the state that the step was given, the circuit leads
/// from the state that the step starts from to the one after it, and the public value of the
/// instance is the hash of the next number, the first state, the state after the step, the running
/// instance handed on and a number drawn for it.
pub proof fn law_satisfied_is_step<E: Engine, C: StepCircuit<E::Scalar>>(
    S: R1CSShape<E>,
    circuit: C,
    k: nat,
    n_bits: nat,
    ck: CommitmentKey<E>,
    u: R1CSInstance<E>,
    w: R1CSWitness<E>,
) -> (r: (StepVal, LookupVal, FoldedVal, Seq<int>))
    requires
        encodes::<E, C>(S, circuit, k, n_bits),
        S.num_io == 1,
        S.satisfied_by(ck, u, w),
    ensures
        ({
            let (v, l, U, z) = r;
            &&& fold_checks::<E>(step_input(v, l, k))
            &&& k > 0 ==> registered(E::Scalar::modulus(), v.pp, v.zi.last(), l.registry, n_bits)
            &&& v.i != 0 ==> v.u.X == state_hash::<E>(v.pp, v.i, v.z0, v.zi, v.U, v.r_i)
            &&& circuit.step(
                if v.i == 0 {
                    v.z0
                } else {
                    v.zi
                },
                z,
            )
            &&& next_instance::<E>(v, l, k, U)
            &&& u.X@[0].val() == state_hash::<E>(
                v.pp,
                (v.i + 1) % E::Scalar::modulus(),
                v.z0,
                z,
                U,
                v.r_next,
            )
        }),
{
    let p = E::Scalar::modulus();
    E::Scalar::lemma_modulus();
    let y = full_vector(vals(w.W@), 1, vals(u.X@));
    let n = S.num_vars as int;
    assert(vals(w.W@).len() == w.W@.len() && vals(u.X@).len() == u.X@.len());
    assert(y[n] == 1 && y[n + 1] == u.X@[0].val());
    assert(all_reduced(p, y)) by {
        assert forall|i: int| 0 <= i < y.len() implies 0 <= #[trigger] y[i] < p by {
            if i < n {
                E::Scalar::lemma_val(w.W@[i]);
            } else if i > n {
                E::Scalar::lemma_val(u.X@[i - n - 1]);
            }
        }
    }
    assert(S.holds(y));
    assert(proves_step::<E, C>(circuit, k, n_bits, y[n + 1]));
    choose|v: StepVal, l: LookupVal, U: FoldedVal, z: Seq<int>|
        {
            &&& step_checks::<E>(v, l, k, n_bits)
            &&& #[trigger] circuit.step(step_start(v), z)
            &&& #[trigger] next_instance::<E>(v, l, k, U)
            &&& y[n + 1] == next_hash::<E>(v, z, U)
        }
}

} // verus!
