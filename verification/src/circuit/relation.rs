//! A folded instance inside a circuit.

use crate::circuit::r1cs::AllocatedNonnativeR1CSInstance;
use crate::circuit::some_tables;
use crate::engine::{
    identity_coordinates, Engine, Group, RO2Circuit, RoItem, POINT_LIMBS, RO2,
};
use crate::errors::SynthesisError;
use crate::field::{lemma_cong_add, lemma_cong_mul, lemma_residue, PrimeField};
use crate::frontend::{
    fresh, less, once, unit, AllocatedNum, ConstraintSystem, Layout, LinearCombination, Valuation,
};
use crate::gadgets::{
    alloc_zero, conditionally_select, conditionally_select_vec, lay_mul_add, lay_select,
    lay_selects, lay_zero, mul_add, nums_at, nums_valid, Boolean,
};
use crate::point::{
    absorb_nums, absorbs, copy_nums, lay_neutral, neutral_names, AllocatedNonnativePoint,
};
use crate::poly::vals;
use crate::relation::{
    concat_all, coords, default_folded, folded_inputs, law_inputs_determine, lemma_folded_absorbed,
    or_empty, same_layout, FoldedInstance, FoldedVal,
};
use vstd::prelude::*;

verus! {

/// A folded instance inside a circuit.
pub struct AllocatedFoldedInstance<E: Engine> {
    pub comm_W: AllocatedNonnativePoint<E>,
    pub comm_E: AllocatedNonnativePoint<E>,
    pub T: AllocatedNum<E::Scalar>,
    pub T_lookup_per_table: Option<Vec<AllocatedNum<E::Scalar>>>,
    pub comm_L_per_table: Option<Vec<AllocatedNonnativePoint<E>>>,
    pub comm_ts_per_table: Option<Vec<AllocatedNonnativePoint<E>>>,
    pub u: AllocatedNum<E::Scalar>,
    pub X: Vec<AllocatedNum<E::Scalar>>,
}

/// How many public values a folded instance has, and for how many tables it carries running
/// claims, commitments to witnesses and commitments to multiplicities.
pub struct FoldedShape {
    pub X: nat,
    pub T_lookup: Option<nat>,
    pub comm_L: Option<nat>,
    pub comm_ts: Option<nat>,
}

/// The points of a sequence under a valuation.
pub open spec fn points_at<E: Engine>(v: Seq<AllocatedNonnativePoint<E>>, e: Valuation) -> Seq<
    Seq<int>,
> {
    Seq::new(v.len(), |i: int| v[i].at(e))
}

/// The points of a sequence belong to the system.
pub open spec fn points_valid<E: Engine>(
    cs: ConstraintSystem<E::Scalar>,
    v: Seq<AllocatedNonnativePoint<E>>,
) -> bool {
    forall|i: int| 0 <= i < v.len() ==> (#[trigger] v[i]).valid(cs)
}

/// What the numbers of a vector that may be missing read as.
pub open spec fn opt_nums_at<F: PrimeField>(v: Option<Vec<AllocatedNum<F>>>, e: Valuation) -> Option<
    Seq<int>,
> {
    match v {
        Some(x) => Some(nums_at(x@, e)),
        None => None,
    }
}

/// What the points of a vector that may be missing read as.
pub open spec fn opt_points_at<E: Engine>(
    v: Option<Vec<AllocatedNonnativePoint<E>>>,
    e: Valuation,
) -> Option<Seq<Seq<int>>> {
    match v {
        Some(x) => Some(points_at(x@, e)),
        None => None,
    }
}

/// The length of a vector that may be missing.
pub open spec fn opt_len<T>(v: Option<Vec<T>>) -> Option<nat> {
    match v {
        Some(x) => Some(x@.len()),
        None => None,
    }
}

/// A point on the line through `a` at zero and `b` at one.
pub open spec fn line(p: int, a: int, b: int, r: int) -> int {
    (a + r * (b - a)) % p
}

/// The instance that `v1` and an instance of the step circuit with the public value `x2` fold
/// to at the challenge `r_b`, given the folded claim and the folded commitments. The running
/// data of the tables is passed on.
pub open spec fn fold_val(
    p: int,
    v1: FoldedVal,
    x2: int,
    r_b: int,
    t_out: int,
    comm_w: Seq<int>,
    comm_e: Seq<int>,
) -> FoldedVal {
    FoldedVal {
        comm_W: comm_w,
        comm_E: comm_e,
        T: t_out,
        T_lookup: v1.T_lookup,
        comm_L: v1.comm_L,
        comm_ts: v1.comm_ts,
        u: line(p, v1.u, 1, r_b),
        X: seq![line(p, v1.X[0], x2, r_b)],
    }
}

/// What an instance that may be missing is allocated as. A given instance is taken as it is; one
/// that is missing is neutral, with one public value and data for `k` tables.
pub open spec fn hinted<E: Engine>(inst: Option<&FoldedInstance<E>>, k: nat) -> FoldedVal {
    match inst {
        Some(u) => u@,
        None => default_folded(1, some_tables(k)),
    }
}

/// How many numbers there are in a list that may be missing.
pub open spec fn count(n: Option<nat>) -> nat {
    match n {
        Some(n) => n,
        None => 0,
    }
}

/// The names of points whose numbers are added one after the other.
pub open spec fn fresh_points(start: nat, n: nat) -> Seq<Seq<int>> {
    Seq::new(n, |i: int| fresh((start + 9 * i) as nat, POINT_LIMBS as nat))
}

/// The names of numbers in a list that may be missing.
pub open spec fn fresh_opt(start: nat, n: Option<nat>) -> Option<Seq<int>> {
    match n {
        Some(n) => Some(fresh(start, n)),
        None => None,
    }
}

/// The names of points in a list that may be missing.
pub open spec fn fresh_opt_points(start: nat, n: Option<nat>) -> Option<Seq<Seq<int>>> {
    match n {
        Some(n) => Some(fresh_points(start, n)),
        None => None,
    }
}

/// How many numbers a folded instance has.
pub open spec fn folded_size(shape: FoldedShape) -> nat {
    20 + shape.X + count(shape.T_lookup) + 9 * count(shape.comm_L) + 9 * count(shape.comm_ts)
}

/// The names of a folded instance whose numbers are added one after the other.
pub open spec fn fresh_folded(start: nat, shape: FoldedShape) -> FoldedVal {
    let t = start + 20 + shape.X;
    let l = t + count(shape.T_lookup);
    let ts = l + 9 * count(shape.comm_L);
    FoldedVal {
        comm_W: fresh(start, POINT_LIMBS as nat),
        comm_E: fresh(start + 9, POINT_LIMBS as nat),
        T: start + 18int,
        T_lookup: fresh_opt(t, shape.T_lookup),
        comm_L: fresh_opt_points(l, shape.comm_L),
        comm_ts: fresh_opt_points(ts, shape.comm_ts),
        u: start + 19int,
        X: fresh(start + 20, shape.X),
    }
}

/// What a system becomes when the instance that a chain starts from is added.
pub open spec fn lay_default(l: Layout, tables: Option<nat>) -> Layout {
    let l2 = lay_zero(lay_neutral(l));
    match tables {
        Some(_) => lay_neutral(lay_neutral(lay_zero(l2))),
        None => l2,
    }
}

/// The names of the instance that a chain starts from.
pub open spec fn default_names(l: Layout, num_io: nat, tables: Option<nat>) -> FoldedVal {
    let l1 = lay_neutral(l);
    let l3 = lay_zero(lay_zero(l1));
    let l4 = lay_neutral(l3);
    FoldedVal {
        comm_W: neutral_names(l.aux as int),
        comm_E: neutral_names(l.aux as int),
        T: l1.aux as int,
        T_lookup: match tables {
            Some(k) => Some(Seq::new(k, |i: int| l1.aux + 1int)),
            None => None,
        },
        comm_L: match tables {
            Some(k) => Some(Seq::new(k, |i: int| neutral_names(l3.aux as int))),
            None => None,
        },
        comm_ts: match tables {
            Some(k) => Some(Seq::new(k, |i: int| neutral_names(l4.aux as int))),
            None => None,
        },
        u: l1.aux as int,
        X: Seq::new(num_io, |i: int| l1.aux as int),
    }
}

/// What a system becomes when an instance is folded into another.
pub open spec fn lay_fold(p: int, l: Layout, v1: FoldedVal, x2: int, r_b: int) -> Layout {
    let l1 = lay_mul_add(p, l, once(r_b), less(p, unit(), v1.u), v1.u);
    lay_mul_add(p, l1, once(r_b), less(p, x2, v1.X[0]), v1.X[0])
}

/// The names of the instance that two instances are folded to.
pub open spec fn fold_names(
    l: Layout,
    v1: FoldedVal,
    t_out: int,
    comm_w: Seq<int>,
    comm_e: Seq<int>,
) -> FoldedVal {
    FoldedVal {
        comm_W: comm_w,
        comm_E: comm_e,
        T: t_out,
        u: l.aux as int,
        X: seq![l.aux + 1int],
        ..v1
    }
}

/// What a system becomes when the first `n` points are chosen out of two lists.
pub open spec fn lay_select_points(
    p: int,
    l: Layout,
    a: Seq<Seq<int>>,
    b: Seq<Seq<int>>,
    condition: Seq<(int, int)>,
    n: nat,
) -> Layout
    decreases n,
{
    if n == 0 {
        l
    } else {
        lay_selects(
            p,
            lay_select_points(p, l, a, b, condition, (n - 1) as nat),
            a[n - 1],
            b[n - 1],
            condition,
            POINT_LIMBS as nat,
        )
    }
}

/// What a system becomes when one of two folded instances of the same shape is chosen.
pub open spec fn lay_select_folded(
    p: int,
    l: Layout,
    a: FoldedVal,
    b: FoldedVal,
    condition: Seq<(int, int)>,
) -> Layout {
    let n = POINT_LIMBS as nat;
    let l1 = lay_selects(p, l, a.comm_W, b.comm_W, condition, n);
    let l2 = lay_selects(p, l1, a.comm_E, b.comm_E, condition, n);
    let l3 = lay_select(p, l2, a.T, b.T, condition);
    let l4 = lay_select(p, l3, a.u, b.u, condition);
    let l5 = lay_selects(p, l4, a.X, b.X, condition, a.X.len());
    let (ta, tb) = (or_empty(a.T_lookup), or_empty(b.T_lookup));
    let l6 = lay_selects(p, l5, ta, tb, condition, ta.len());
    let (la, lb) = (or_empty(a.comm_L), or_empty(b.comm_L));
    let l7 = lay_select_points(p, l6, la, lb, condition, la.len());
    let (sa, sb) = (or_empty(a.comm_ts), or_empty(b.comm_ts));
    lay_select_points(p, l7, sa, sb, condition, sa.len())
}

/// The shape of a folded instance that is given as plain integers.
pub open spec fn shape_of(v: FoldedVal) -> FoldedShape {
    FoldedShape {
        X: v.X.len(),
        T_lookup: match v.T_lookup {
            Some(s) => Some(s.len()),
            None => None,
        },
        comm_L: match v.comm_L {
            Some(s) => Some(s.len()),
            None => None,
        },
        comm_ts: match v.comm_ts {
            Some(s) => Some(s.len()),
            None => None,
        },
    }
}

/// A copy of a vector of points.
pub fn copy_alloc_points<E: Engine>(v: &Vec<AllocatedNonnativePoint<E>>) -> (r: Vec<
    AllocatedNonnativePoint<E>,
>)
    ensures
        r@.len() == v@.len(),
        forall|i: int| 0 <= i < v@.len() ==> (#[trigger] r@[i]).limbs@ == v@[i].limbs@,
{
    let n: usize = v.len();
    let mut r: Vec<AllocatedNonnativePoint<E>> = Vec::new();
    let mut i: usize = 0;
    while i < n
        invariant
            i <= n,
            n == v@.len(),
            r@.len() == i,
            forall|j: int| 0 <= j < i ==> (#[trigger] r@[j]).limbs@ == v@[j].limbs@,
        decreases n - i,
    {
        r.push(v[i].clone());
        i = i + 1;
    }
    r
}

fn alloc_nums<E: Engine>(
    cs: &mut ConstraintSystem<E::Scalar>,
    v: &Vec<E::Scalar>,
) -> (r: Vec<AllocatedNum<E::Scalar>>)
    requires
        old(cs).wf(),
    ensures
        old(cs).grows(*final(cs)),
        nums_valid(*final(cs), r@),
        r@.len() == v@.len(),
        forall|e: Valuation| #[trigger] final(cs).admits(e) == old(cs).admits(e),
        final(cs).satisfied() == old(cs).satisfied(),
        old(cs).records() ==> nums_at(r@, Valuation::Recorded) == vals(v@),
        final(cs).layout() == old(cs).layout().more(v@.len()),
        nums_at(r@, Valuation::Names) == fresh(old(cs).layout().aux, v@.len()),
{
    let ghost before = *cs;
    let n: usize = v.len();
    let mut r: Vec<AllocatedNum<E::Scalar>> = Vec::new();
    let mut i: usize = 0;
    while i < n
        invariant
            i <= n,
            n == v@.len(),
            before.wf(),
            before.grows(*cs),
            r@.len() == i,
            nums_valid(*cs, r@),
            forall|e: Valuation| #[trigger] cs.admits(e) == before.admits(e),
            cs.satisfied() == before.satisfied(),
            before.records() ==> forall|j: int|
                0 <= j < i ==> (#[trigger] r@[j]).at(Valuation::Recorded) == v@[j].val(),
            cs.layout() == before.layout().more(i as nat),
            forall|j: int|
                0 <= j < i ==> (#[trigger] r@[j]).at(Valuation::Names) == before.layout().aux + j,
        decreases n - i,
    {
        let x = AllocatedNum::alloc_value(cs, v[i]);
        r.push(x);
        i = i + 1;
    }
    proof {
        assert(nums_at(r@, Valuation::Names) =~= fresh(before.layout().aux, n as nat));
        if before.records() {
            assert(nums_at(r@, Valuation::Recorded) =~= vals(v@));
        }
    }
    r
}

fn alloc_zeros<E: Engine>(
    cs: &mut ConstraintSystem<E::Scalar>,
    k: usize,
) -> (r: Vec<AllocatedNum<E::Scalar>>)
    requires
        old(cs).wf(),
    ensures
        old(cs).grows(*final(cs)),
        nums_valid(*final(cs), r@),
        r@.len() == k,
        forall|e: Valuation| #[trigger] final(cs).admits(e) == old(cs).admits(e),
        final(cs).satisfied() == old(cs).satisfied(),
        old(cs).records() ==> nums_at(r@, Valuation::Recorded) == Seq::new(k as nat, |i: int| 0int),
        final(cs).layout() == old(cs).layout().more(k as nat),
        nums_at(r@, Valuation::Names) == fresh(old(cs).layout().aux, k as nat),
{
    let v: Vec<E::Scalar> = crate::relation::zeros(k);
    alloc_nums::<E>(cs, &v)
}

/// Adds the points of a vector.
pub fn alloc_points<E: Engine>(
    cs: &mut ConstraintSystem<E::Scalar>,
    v: &Vec<E::GE>,
) -> (r: Vec<AllocatedNonnativePoint<E>>)
    requires
        old(cs).wf(),
    ensures
        old(cs).grows(*final(cs)),
        points_valid(*final(cs), r@),
        r@.len() == v@.len(),
        forall|e: Valuation| #[trigger] final(cs).admits(e) == old(cs).admits(e),
        final(cs).satisfied() == old(cs).satisfied(),
        old(cs).records() ==> points_at(r@, Valuation::Recorded) == coords::<E>(v@),
        final(cs).layout() == old(cs).layout().more(9 * v@.len()),
        points_at(r@, Valuation::Names) == fresh_points(old(cs).layout().aux, v@.len()),
{
    let ghost before = *cs;
    let n: usize = v.len();
    let mut r: Vec<AllocatedNonnativePoint<E>> = Vec::new();
    let mut i: usize = 0;
    while i < n
        invariant
            i <= n,
            n == v@.len(),
            before.wf(),
            before.grows(*cs),
            r@.len() == i,
            points_valid(*cs, r@),
            forall|e: Valuation| #[trigger] cs.admits(e) == before.admits(e),
            cs.satisfied() == before.satisfied(),
            before.records() ==> forall|j: int|
                0 <= j < i ==> (#[trigger] r@[j]).at(Valuation::Recorded) == E::GE::coordinates(
                    v@[j].log(),
                ),
            cs.layout() == before.layout().more(9 * i as nat),
            forall|j: int|
                0 <= j < i ==> (#[trigger] r@[j]).at(Valuation::Names) == fresh(
                    (before.layout().aux + 9 * j) as nat,
                    POINT_LIMBS as nat,
                ),
        decreases n - i,
    {
        let x = AllocatedNonnativePoint::allocate(cs, Some(&v[i]));
        r.push(x);
        i = i + 1;
    }
    proof {
        assert(points_at(r@, Valuation::Names) =~= fresh_points(before.layout().aux, n as nat));
        if before.records() {
            assert(points_at(r@, Valuation::Recorded) =~= coords::<E>(v@));
        }
    }
    r
}

/// Adds points that are not given.
pub fn alloc_missing_points<E: Engine>(
    cs: &mut ConstraintSystem<E::Scalar>,
    k: usize,
) -> (r: Vec<AllocatedNonnativePoint<E>>)
    requires
        old(cs).wf(),
    ensures
        old(cs).grows(*final(cs)),
        points_valid(*final(cs), r@),
        r@.len() == k,
        forall|e: Valuation| #[trigger] final(cs).admits(e) == old(cs).admits(e),
        final(cs).satisfied() == old(cs).satisfied(),
        old(cs).records() ==> points_at(r@, Valuation::Recorded) == Seq::new(
            k as nat,
            |i: int| identity_coordinates(),
        ),
        final(cs).layout() == old(cs).layout().more(9 * k as nat),
        points_at(r@, Valuation::Names) == fresh_points(old(cs).layout().aux, k as nat),
{
    let ghost before = *cs;
    let mut r: Vec<AllocatedNonnativePoint<E>> = Vec::new();
    let mut i: usize = 0;
    while i < k
        invariant
            i <= k,
            before.wf(),
            before.grows(*cs),
            r@.len() == i,
            points_valid(*cs, r@),
            forall|e: Valuation| #[trigger] cs.admits(e) == before.admits(e),
            cs.satisfied() == before.satisfied(),
            before.records() ==> forall|j: int|
                0 <= j < i ==> (#[trigger] r@[j]).at(Valuation::Recorded) == identity_coordinates(),
            cs.layout() == before.layout().more(9 * i as nat),
            forall|j: int|
                0 <= j < i ==> (#[trigger] r@[j]).at(Valuation::Names) == fresh(
                    (before.layout().aux + 9 * j) as nat,
                    POINT_LIMBS as nat,
                ),
        decreases k - i,
    {
        let x = AllocatedNonnativePoint::allocate(cs, None);
        r.push(x);
        i = i + 1;
    }
    proof {
        assert(points_at(r@, Valuation::Names) =~= fresh_points(before.layout().aux, k as nat));
        if before.records() {
            assert(points_at(r@, Valuation::Recorded) =~= Seq::new(
                k as nat,
                |i: int| identity_coordinates(),
            ));
        }
    }
    r
}

/// Takes in the points of a vector.
pub fn absorb_alloc_points<E: Engine>(
    ro: &mut RO2Circuit<E>,
    v: &Vec<AllocatedNonnativePoint<E>>,
)
    ensures
        forall|cs: ConstraintSystem<E::Scalar>|
            old(ro).valid(cs) && points_valid(cs, v@) ==> #[trigger] final(ro).valid(cs),
        forall|e: Valuation| #[trigger]
            final(ro).at(e) == old(ro).at(e) + absorbs(concat_all(points_at(v@, e))),
{
    let n: usize = v.len();
    let mut i: usize = 0;
    proof {
        assert forall|e: Valuation| #[trigger] ro.at(e) == old(ro).at(e) + absorbs(
            concat_all(points_at(v@, e).take(0)),
        ) by {
            assert(ro.at(e) =~= old(ro).at(e) + absorbs(concat_all(points_at(v@, e).take(0))));
        }
    }
    while i < n
        invariant
            i <= n,
            n == v@.len(),
            forall|cs: ConstraintSystem<E::Scalar>|
                old(ro).valid(cs) && points_valid(cs, v@) ==> #[trigger] ro.valid(cs),
            forall|e: Valuation| #[trigger]
                ro.at(e) == old(ro).at(e) + absorbs(concat_all(points_at(v@, e).take(i as int))),
        decreases n - i,
    {
        let ghost before = *ro;
        v[i].absorb_in_ro(ro);
        proof {
            assert forall|e: Valuation| #[trigger] ro.at(e) == old(ro).at(e) + absorbs(
                concat_all(points_at(v@, e).take(i as int + 1)),
            ) by {
                let t = points_at(v@, e).take(i as int + 1);
                assert(t.drop_last() =~= points_at(v@, e).take(i as int));
                assert(before.at(e) == old(ro).at(e) + absorbs(
                    concat_all(points_at(v@, e).take(i as int)),
                ));
                assert(ro.at(e) =~= old(ro).at(e) + absorbs(concat_all(t)));
            }
            assert forall|cs: ConstraintSystem<E::Scalar>| old(ro).valid(cs) && points_valid(
                cs,
                v@,
            ) implies #[trigger] ro.valid(cs) by {
                assert(before.valid(cs));
                assert(v@[i as int].valid(cs));
            }
        }
        i = i + 1;
    }
    proof {
        assert forall|e: Valuation| #[trigger] ro.at(e) == old(ro).at(e) + absorbs(
            concat_all(points_at(v@, e)),
        ) by {
            assert(points_at(v@, e).take(n as int) =~= points_at(v@, e));
        }
    }
}

/// Why a fold is refused that would need more than one public value.
pub const FOLD_ARITY: &'static str = "AllocatedFoldedInstance::fold: self.X.len() != 1; U2 is structurally single-IO per §1.6 anchor (augmented-circuit single hash.inputize). The legal U1.X arity at fold time is 1. Vec-shape applies to absorb_in_ro / select / alloc only; fold requires arity-match.";

/// Why a choice between instances with different numbers of public values is refused.
pub const SELECT_X: &'static str = "AllocatedFoldedInstance::conditionally_select: X shape mismatch";

/// Why a choice between instances with running claims of different shapes is refused.
pub const SELECT_T_LOOKUP: &'static str = "AllocatedFoldedInstance::conditionally_select: T_lookup_per_table shape mismatch (None/Some or unequal lengths) — invariant violated by caller";

/// Why a choice between instances with witness commitments of different shapes is refused.
pub const SELECT_COMM_L: &'static str = "AllocatedFoldedInstance::conditionally_select: comm_L_per_table shape mismatch (None/Some or unequal lengths) — invariant violated by caller";

/// Why a choice between instances with multiplicity commitments of different shapes is refused.
pub const SELECT_COMM_TS: &'static str = "AllocatedFoldedInstance::conditionally_select: comm_ts_per_table shape mismatch (None/Some or unequal lengths) — invariant violated by caller";

/// The error is the refusal for the given reason.
pub open spec fn refused_for<T>(r: Result<T, SynthesisError>, reason: Seq<char>) -> bool {
    match r {
        Err(SynthesisError::Unsatisfiable(s)) => s@ == reason,
        _ => false,
    }
}

/// Refuses for the given reason.
pub fn refuse<T>(reason: &str) -> (r: Result<T, SynthesisError>)
    ensures
        r is Err,
        refused_for(r, reason@),
{
    Err(SynthesisError::Unsatisfiable(reason.to_owned()))
}

fn select_opt_nums<F: PrimeField>(
    cs: &mut ConstraintSystem<F>,
    a: &Option<Vec<AllocatedNum<F>>>,
    b: &Option<Vec<AllocatedNum<F>>>,
    condition: &Boolean<F>,
    reason: &str,
) -> (r: Result<Option<Vec<AllocatedNum<F>>>, SynthesisError>)
    requires
        old(cs).wf(),
        a is Some ==> nums_valid(*old(cs), a->Some_0@),
        b is Some ==> nums_valid(*old(cs), b->Some_0@),
        condition.valid(*old(cs)),
    ensures
        old(cs).grows(*final(cs)),
        r is Ok <==> opt_len(*a) == opt_len(*b),
        r is Err ==> refused_for(r, reason@),
        r is Ok ==> {
            &&& opt_len(r->Ok_0) == opt_len(*a)
            &&& r->Ok_0 is Some ==> nums_valid(*final(cs), r->Ok_0->Some_0@)
            &&& forall|e: Valuation| #[trigger]
                final(cs).admits(e) ==> opt_nums_at(r->Ok_0, e) == if condition.at(e) {
                    opt_nums_at(*a, e)
                } else {
                    opt_nums_at(*b, e)
                }
            &&& old(cs).records() ==> final(cs).satisfied() == old(cs).satisfied()
            &&& final(cs).layout() == lay_selects(
                F::modulus(),
                old(cs).layout(),
                or_empty(opt_nums_at(*a, Valuation::Names)),
                or_empty(opt_nums_at(*b, Valuation::Names)),
                condition.laid(),
                count(opt_len(*a)),
            )
            &&& final(cs).layout().aux == old(cs).layout().aux + count(opt_len(*a))
            &&& opt_nums_at(r->Ok_0, Valuation::Names) == fresh_opt(
                old(cs).layout().aux,
                opt_len(*a),
            )
        },
{
    match (a, b) {
        (None, None) => Ok(None),
        (Some(x), Some(y)) => {
            if x.len() == y.len() {
                let z = conditionally_select_vec(cs, x, y, condition);
                Ok(Some(z))
            } else {
                refuse(reason)
            }
        },
        _ => refuse(reason),
    }
}

fn select_points<E: Engine>(
    cs: &mut ConstraintSystem<E::Scalar>,
    a: &Vec<AllocatedNonnativePoint<E>>,
    b: &Vec<AllocatedNonnativePoint<E>>,
    condition: &Boolean<E::Scalar>,
) -> (r: Vec<AllocatedNonnativePoint<E>>)
    requires
        old(cs).wf(),
        points_valid(*old(cs), a@),
        points_valid(*old(cs), b@),
        a@.len() == b@.len(),
        condition.valid(*old(cs)),
    ensures
        old(cs).grows(*final(cs)),
        points_valid(*final(cs), r@),
        r@.len() == a@.len(),
        forall|e: Valuation| #[trigger]
            final(cs).admits(e) ==> points_at(r@, e) == if condition.at(e) {
                points_at(a@, e)
            } else {
                points_at(b@, e)
            },
        old(cs).records() ==> final(cs).satisfied() == old(cs).satisfied(),
        final(cs).layout() == lay_select_points(
            E::Scalar::modulus(),
            old(cs).layout(),
            points_at(a@, Valuation::Names),
            points_at(b@, Valuation::Names),
            condition.laid(),
            a@.len(),
        ),
        final(cs).layout().aux == old(cs).layout().aux + 9 * a@.len(),
        points_at(r@, Valuation::Names) == fresh_points(old(cs).layout().aux, a@.len()),
{
    let ghost before = *cs;
    let n: usize = a.len();
    let mut r: Vec<AllocatedNonnativePoint<E>> = Vec::new();
    let mut i: usize = 0;
    while i < n
        invariant
            i <= n,
            n == a@.len(),
            n == b@.len(),
            r@.len() == i,
            before.wf(),
            before.grows(*cs),
            points_valid(before, a@),
            points_valid(before, b@),
            condition.valid(before),
            points_valid(*cs, r@),
            forall|e: Valuation, j: int| #[trigger]
                cs.admits(e) && 0 <= j < i ==> (#[trigger] r@[j]).at(e) == if condition.at(e) {
                    a@[j].at(e)
                } else {
                    b@[j].at(e)
                },
            before.records() ==> cs.satisfied() == before.satisfied(),
            cs.layout() == lay_select_points(
                E::Scalar::modulus(),
                before.layout(),
                points_at(a@, Valuation::Names),
                points_at(b@, Valuation::Names),
                condition.laid(),
                i as nat,
            ),
            cs.layout().aux == before.layout().aux + 9 * i,
            forall|j: int|
                0 <= j < i ==> (#[trigger] r@[j]).at(Valuation::Names) == fresh(
                    (before.layout().aux + 9 * j) as nat,
                    POINT_LIMBS as nat,
                ),
        decreases n - i,
    {
        proof {
            assert(a@[i as int].valid(before));
            assert(b@[i as int].valid(before));
        }
        let x = AllocatedNonnativePoint::conditionally_select(cs, &a[i], &b[i], condition);
        r.push(x);
        i = i + 1;
    }
    proof {
        assert(points_at(r@, Valuation::Names) =~= fresh_points(before.layout().aux, n as nat));
        assert forall|e: Valuation| #[trigger] cs.admits(e) implies points_at(r@, e)
            == if condition.at(e) {
            points_at(a@, e)
        } else {
            points_at(b@, e)
        } by {
            if condition.at(e) {
                assert(points_at(r@, e) =~= points_at(a@, e));
            } else {
                assert(points_at(r@, e) =~= points_at(b@, e));
            }
        }
    }
    r
}

fn select_opt_points<E: Engine>(
    cs: &mut ConstraintSystem<E::Scalar>,
    a: &Option<Vec<AllocatedNonnativePoint<E>>>,
    b: &Option<Vec<AllocatedNonnativePoint<E>>>,
    condition: &Boolean<E::Scalar>,
    reason: &str,
) -> (r: Result<Option<Vec<AllocatedNonnativePoint<E>>>, SynthesisError>)
    requires
        old(cs).wf(),
        a is Some ==> points_valid(*old(cs), a->Some_0@),
        b is Some ==> points_valid(*old(cs), b->Some_0@),
        condition.valid(*old(cs)),
    ensures
        old(cs).grows(*final(cs)),
        r is Ok <==> opt_len(*a) == opt_len(*b),
        r is Err ==> refused_for(r, reason@),
        r is Ok ==> {
            &&& opt_len(r->Ok_0) == opt_len(*a)
            &&& r->Ok_0 is Some ==> points_valid(*final(cs), r->Ok_0->Some_0@)
            &&& forall|e: Valuation| #[trigger]
                final(cs).admits(e) ==> opt_points_at(r->Ok_0, e) == if condition.at(e) {
                    opt_points_at(*a, e)
                } else {
                    opt_points_at(*b, e)
                }
            &&& old(cs).records() ==> final(cs).satisfied() == old(cs).satisfied()
            &&& final(cs).layout() == lay_select_points(
                E::Scalar::modulus(),
                old(cs).layout(),
                or_empty(opt_points_at(*a, Valuation::Names)),
                or_empty(opt_points_at(*b, Valuation::Names)),
                condition.laid(),
                count(opt_len(*a)),
            )
            &&& final(cs).layout().aux == old(cs).layout().aux + 9 * count(opt_len(*a))
            &&& opt_points_at(r->Ok_0, Valuation::Names) == fresh_opt_points(
                old(cs).layout().aux,
                opt_len(*a),
            )
        },
{
    match (a, b) {
        (None, None) => Ok(None),
        (Some(x), Some(y)) => {
            if x.len() == y.len() {
                let z = select_points(cs, x, y, condition);
                Ok(Some(z))
            } else {
                refuse(reason)
            }
        },
        _ => refuse(reason),
    }
}

/// The combination that a fold computes in a circuit is a point on a line.
proof fn lemma_line(p: int, a: int, b: int, r: int)
    requires
        p > 0,
    ensures
        (r * ((b - a) % p) + a) % p == line(p, a, b, r),
{
    lemma_residue(p, b - a);
    lemma_cong_mul(p, r, (b - a) % p, r, b - a);
    lemma_cong_add(p, r * ((b - a) % p), a, r * (b - a), a);
}

impl<E: Engine> AllocatedFoldedInstance<E> {
    /// The instance under a valuation.
    pub open spec fn at(self, e: Valuation) -> FoldedVal {
        FoldedVal {
            comm_W: self.comm_W.at(e),
            comm_E: self.comm_E.at(e),
            T: self.T.at(e),
            T_lookup: opt_nums_at(self.T_lookup_per_table, e),
            comm_L: opt_points_at(self.comm_L_per_table, e),
            comm_ts: opt_points_at(self.comm_ts_per_table, e),
            u: self.u.at(e),
            X: nums_at(self.X@, e),
        }
    }

    /// The numbers of the instance belong to the system.
    pub open spec fn valid(self, cs: ConstraintSystem<E::Scalar>) -> bool {
        &&& self.comm_W.valid(cs)
        &&& self.comm_E.valid(cs)
        &&& cs.valid(self.T)
        &&& cs.valid(self.u)
        &&& nums_valid(cs, self.X@)
        &&& self.T_lookup_per_table is Some ==> nums_valid(cs, self.T_lookup_per_table->Some_0@)
        &&& self.comm_L_per_table is Some ==> points_valid(cs, self.comm_L_per_table->Some_0@)
        &&& self.comm_ts_per_table is Some ==> points_valid(cs, self.comm_ts_per_table->Some_0@)
    }

    /// The numbers of the instance stay in a system that grows.
    pub proof fn lemma_valid_grows(
        self,
        before: ConstraintSystem<E::Scalar>,
        later: ConstraintSystem<E::Scalar>,
    )
        requires
            before.grows(later),
            self.valid(before),
        ensures
            self.valid(later),
    {
        if self.comm_L_per_table is Some {
            let v = self.comm_L_per_table->Some_0@;
            assert forall|i: int| 0 <= i < v.len() implies (#[trigger] v[i]).valid(later) by {
                assert(v[i].valid(before));
            }
        }
        if self.comm_ts_per_table is Some {
            let v = self.comm_ts_per_table->Some_0@;
            assert forall|i: int| 0 <= i < v.len() implies (#[trigger] v[i]).valid(later) by {
                assert(v[i].valid(before));
            }
        }
    }

    /// The shape of the instance.
    pub open spec fn shape(self) -> FoldedShape {
        FoldedShape {
            X: self.X@.len(),
            T_lookup: opt_len(self.T_lookup_per_table),
            comm_L: opt_len(self.comm_L_per_table),
            comm_ts: opt_len(self.comm_ts_per_table),
        }
    }

    /// Adds an instance. Where none is given it is the neutral one with one public value.
    pub fn allocate(
        cs: &mut ConstraintSystem<E::Scalar>,
        inst: Option<&FoldedInstance<E>>,
    ) -> (r: Result<Self, SynthesisError>)
        requires
            old(cs).wf(),
        ensures
            r is Ok,
            old(cs).grows(*final(cs)),
            r->Ok_0.valid(*final(cs)),
            r->Ok_0.shape() == shape_of(hinted(inst, 0)),
            forall|e: Valuation| #[trigger] final(cs).admits(e) == old(cs).admits(e),
            final(cs).satisfied() == old(cs).satisfied(),
            old(cs).records() ==> r->Ok_0.at(Valuation::Recorded) == hinted(inst, 0),
            final(cs).layout() == old(cs).layout().more(folded_size(shape_of(hinted(inst, 0)))),
            r->Ok_0.at(Valuation::Names) == fresh_folded(
                old(cs).layout().aux,
                shape_of(hinted(inst, 0)),
            ),
    {
        Self::alloc_with_k_hint(cs, inst, 0)
    }

    /// Adds an instance. One that is given is added as it is. One that is missing is neutral; it
    /// has data for `lookup_fold_k_hint` tables.
    pub fn alloc_with_k_hint(
        cs: &mut ConstraintSystem<E::Scalar>,
        inst: Option<&FoldedInstance<E>>,
        lookup_fold_k_hint: usize,
    ) -> (r: Result<Self, SynthesisError>)
        requires
            old(cs).wf(),
        ensures
            r is Ok,
            old(cs).grows(*final(cs)),
            r->Ok_0.valid(*final(cs)),
            r->Ok_0.shape() == shape_of(hinted(inst, lookup_fold_k_hint as nat)),
            forall|e: Valuation| #[trigger] final(cs).admits(e) == old(cs).admits(e),
            final(cs).satisfied() == old(cs).satisfied(),
            old(cs).records() ==> r->Ok_0.at(Valuation::Recorded) == hinted(
                inst,
                lookup_fold_k_hint as nat,
            ),
            final(cs).layout() == old(cs).layout().more(
                folded_size(shape_of(hinted(inst, lookup_fold_k_hint as nat))),
            ),
            r->Ok_0.at(Valuation::Names) == fresh_folded(
                old(cs).layout().aux,
                shape_of(hinted(inst, lookup_fold_k_hint as nat)),
            ),
    {
        let ghost before = *cs;
        let (w, e, t_val, u_val) = match inst {
            Some(i) => (Some(&i.comm_W), Some(&i.comm_E), i.T, i.u),
            None => (None, None, E::Scalar::zero(), E::Scalar::zero()),
        };
        let comm_W = AllocatedNonnativePoint::allocate(cs, w);
        let comm_E = AllocatedNonnativePoint::allocate(cs, e);
        let T = AllocatedNum::alloc_value(cs, t_val);
        let u = AllocatedNum::alloc_value(cs, u_val);
        let X = match inst {
            Some(i) => alloc_nums::<E>(cs, &i.X),
            None => alloc_zeros::<E>(cs, 1),
        };
        let T_lookup_per_table = match inst {
            Some(i) => match i.t_lookup() {
                Some(v) => Some(alloc_nums::<E>(cs, v)),
                None => None,
            },
            None => {
                if lookup_fold_k_hint > 0 {
                    Some(alloc_zeros::<E>(cs, lookup_fold_k_hint))
                } else {
                    None
                }
            },
        };
        let comm_L_per_table = match inst {
            Some(i) => match &i.comm_L {
                Some(v) => Some(alloc_points(cs, v)),
                None => None,
            },
            None => {
                if lookup_fold_k_hint > 0 {
                    Some(alloc_missing_points(cs, lookup_fold_k_hint))
                } else {
                    None
                }
            },
        };
        let comm_ts_per_table = match inst {
            Some(i) => match &i.comm_ts {
                Some(v) => Some(alloc_points(cs, v)),
                None => None,
            },
            None => {
                if lookup_fold_k_hint > 0 {
                    Some(alloc_missing_points(cs, lookup_fold_k_hint))
                } else {
                    None
                }
            },
        };
        let r = AllocatedFoldedInstance {
            comm_W,
            comm_E,
            T,
            T_lookup_per_table,
            comm_L_per_table,
            comm_ts_per_table,
            u,
            X,
        };
        Ok(r)
    }

    /// The instance that a chain of folds with `k` lookup tables starts from. The claim is bound
    /// to zero by a constraint; the relaxation scalar and the public values are the same
    /// variable. The running claims of the tables share another one that is bound to zero.
    pub fn default_with_lookup_k(
        cs: &mut ConstraintSystem<E::Scalar>,
        num_io: usize,
        k: usize,
    ) -> (r: Result<Self, SynthesisError>)
        requires
            old(cs).wf(),
        ensures
            r is Ok,
            old(cs).grows(*final(cs)),
            r->Ok_0.valid(*final(cs)),
            r->Ok_0.shape() == shape_of(default_folded(num_io as nat, Some(k as nat))),
            final(cs).size() == old(cs).size() + 8,
            r->Ok_0.u.variable == r->Ok_0.T.variable,
            forall|i: int|
                0 <= i < num_io ==> (#[trigger] r->Ok_0.X@[i]).variable == r->Ok_0.T.variable,
            forall|i: int, j: int|
                0 <= i < k && 0 <= j < k ==> (
                #[trigger] r->Ok_0.T_lookup_per_table->Some_0@[i]).variable == (
                #[trigger] r->Ok_0.T_lookup_per_table->Some_0@[j]).variable,
            forall|i: int|
                0 <= i < k ==> (#[trigger] r->Ok_0.T_lookup_per_table->Some_0@[i]).variable
                    != r->Ok_0.T.variable,
            forall|e: Valuation| #[trigger]
                final(cs).admits(e) ==> r->Ok_0.at(e) == default_folded(
                    num_io as nat,
                    Some(k as nat),
                ),
            old(cs).records() ==> final(cs).satisfied() == old(cs).satisfied(),
            final(cs).layout() == lay_default(old(cs).layout(), Some(k as nat)),
            r->Ok_0.at(Valuation::Names) == default_names(
                old(cs).layout(),
                num_io as nat,
                Some(k as nat),
            ),
    {
        let comm_W = AllocatedNonnativePoint::default(cs);
        let ghost s1 = *cs;
        let comm_E = comm_W.clone();
        let T = alloc_zero(cs);
        let ghost s2 = *cs;
        let u = T;
        let X = repeat_num(T, num_io);
        let T_lookup_zero = alloc_zero(cs);
        let ghost s3 = *cs;
        let t_lookup = repeat_num(T_lookup_zero, k);
        let comm_L_zero = AllocatedNonnativePoint::default(cs);
        let ghost s4 = *cs;
        let comm_l = repeat_point(&comm_L_zero, k);
        let comm_ts_zero = AllocatedNonnativePoint::default(cs);
        let comm_ts = repeat_point(&comm_ts_zero, k);
        let r = AllocatedFoldedInstance {
            comm_W,
            comm_E,
            T,
            T_lookup_per_table: Some(t_lookup),
            comm_L_per_table: Some(comm_l),
            comm_ts_per_table: Some(comm_ts),
            u,
            X,
        };
        proof {
            assert(s2.valid(T));
            assert(cs.valid(T));
            assert(cs.valid(T_lookup_zero));
            assert(comm_W.valid(s1));
            assert(comm_W.valid(*cs));
            assert(comm_L_zero.valid(*cs));
            let d = default_folded(num_io as nat, Some(k as nat));
            let names = default_names(old(cs).layout(), num_io as nat, Some(k as nat));
            let n = r.at(Valuation::Names);
            assert(comm_E.limbs@ == comm_W.limbs@);
            assert(n.X =~= names.X);
            assert(n.T_lookup->Some_0 =~= names.T_lookup->Some_0);
            assert(n.comm_L->Some_0 =~= names.comm_L->Some_0) by {
                assert forall|i: int| 0 <= i < k implies n.comm_L->Some_0[i]
                    == comm_L_zero.at(Valuation::Names) by {
                    assert(comm_l@[i].limbs@ == comm_L_zero.limbs@);
                }
            }
            assert(n.comm_ts->Some_0 =~= names.comm_ts->Some_0) by {
                assert forall|i: int| 0 <= i < k implies n.comm_ts->Some_0[i]
                    == comm_ts_zero.at(Valuation::Names) by {
                    assert(comm_ts@[i].limbs@ == comm_ts_zero.limbs@);
                }
            }
            assert forall|e: Valuation| #[trigger] cs.admits(e) implies r.at(e) == d by {
                assert(s4.admits(e) && s3.admits(e) && s2.admits(e) && s1.admits(e));
                assert(r.at(e).X =~= d.X);
                assert(r.at(e).T_lookup->Some_0 =~= d.T_lookup->Some_0);
                assert(comm_E.at(e) =~= comm_W.at(e));
                assert forall|i: int| 0 <= i < k implies points_at(comm_l@, e)[i]
                    == identity_coordinates() by {
                    assert(comm_l@[i].at(e) =~= comm_L_zero.at(e));
                }
                assert forall|i: int| 0 <= i < k implies points_at(comm_ts@, e)[i]
                    == identity_coordinates() by {
                    assert(comm_ts@[i].at(e) =~= comm_ts_zero.at(e));
                }
                assert(r.at(e).comm_L->Some_0 =~= d.comm_L->Some_0);
                assert(r.at(e).comm_ts->Some_0 =~= d.comm_ts->Some_0);
            }
        }
        Ok(r)
    }

    /// The instance that a chain of folds without lookups starts from. The claim is bound to
    /// zero by a constraint; the relaxation scalar and the public values are the same variable.
    pub fn default(
        cs: &mut ConstraintSystem<E::Scalar>,
        num_io: usize,
    ) -> (r: Result<Self, SynthesisError>)
        requires
            old(cs).wf(),
        ensures
            r is Ok,
            old(cs).grows(*final(cs)),
            r->Ok_0.valid(*final(cs)),
            r->Ok_0.shape() == shape_of(default_folded(num_io as nat, None)),
            final(cs).size() == old(cs).size() + 3,
            r->Ok_0.u.variable == r->Ok_0.T.variable,
            forall|i: int|
                0 <= i < num_io ==> (#[trigger] r->Ok_0.X@[i]).variable == r->Ok_0.T.variable,
            forall|e: Valuation| #[trigger]
                final(cs).admits(e) ==> r->Ok_0.at(e) == default_folded(num_io as nat, None),
            old(cs).records() ==> final(cs).satisfied() == old(cs).satisfied(),
            final(cs).layout() == lay_default(old(cs).layout(), None),
            r->Ok_0.at(Valuation::Names) == default_names(
                old(cs).layout(),
                num_io as nat,
                None,
            ),
    {
        let comm_W = AllocatedNonnativePoint::default(cs);
        let ghost s1 = *cs;
        let comm_E = comm_W.clone();
        let T = alloc_zero(cs);
        let u = T;
        let X = repeat_num(T, num_io);
        let r = AllocatedFoldedInstance {
            comm_W,
            comm_E,
            T,
            T_lookup_per_table: None,
            comm_L_per_table: None,
            comm_ts_per_table: None,
            u,
            X,
        };
        proof {
            assert(comm_W.valid(*cs));
            let d = default_folded(num_io as nat, None);
            assert(comm_E.limbs@ == comm_W.limbs@);
            assert(r.at(Valuation::Names).X =~= default_names(
                old(cs).layout(),
                num_io as nat,
                None,
            ).X);
            assert forall|e: Valuation| #[trigger] cs.admits(e) implies r.at(e) == d by {
                assert(s1.admits(e));
                assert(r.at(e).X =~= d.X);
                assert(comm_E.at(e) =~= comm_W.at(e));
            }
        }
        Ok(r)
    }

    /// Takes in the instance: the commitments to witness and error, the running claim, the
    /// running claims and commitments of the tables, the relaxation scalar and the public values.
    pub fn absorb_in_ro(
        &self,
        cs: &mut ConstraintSystem<E::Scalar>,
        ro: &mut RO2Circuit<E>,
    ) -> (r: Result<(), SynthesisError>)
        requires
            old(cs).wf(),
            self.valid(*old(cs)),
            old(ro).valid(*old(cs)),
        ensures
            r is Ok,
            *final(cs) == *old(cs),
            final(ro).valid(*old(cs)),
            forall|e: Valuation| #[trigger]
                final(ro).at(e) == old(ro).at(e) + absorbs(folded_inputs(self.at(e))),
    {
        self.comm_W.absorb_in_ro(ro);
        let ghost s1 = *ro;
        self.comm_E.absorb_in_ro(ro);
        let ghost s2 = *ro;
        ro.absorb(&self.T);
        let ghost s3 = *ro;
        match &self.T_lookup_per_table {
            Some(v) => {
                absorb_nums(ro, v);
            },
            None => {},
        }
        let ghost s4 = *ro;
        match &self.comm_L_per_table {
            Some(v) => {
                absorb_alloc_points(ro, v);
            },
            None => {},
        }
        let ghost s5 = *ro;
        match &self.comm_ts_per_table {
            Some(v) => {
                absorb_alloc_points(ro, v);
            },
            None => {},
        }
        let ghost s6 = *ro;
        ro.absorb(&self.u);
        let ghost s7 = *ro;
        absorb_nums(ro, &self.X);
        proof {
            assert(s3.valid(*cs));
            assert(s4.valid(*cs));
            assert(s5.valid(*cs));
            assert(s6.valid(*cs));
            assert forall|e: Valuation| #[trigger] ro.at(e) == old(ro).at(e) + absorbs(
                folded_inputs(self.at(e)),
            ) by {
                let v = self.at(e);
                assert(s1.at(e) == old(ro).at(e) + absorbs(v.comm_W));
                assert(s2.at(e) == s1.at(e) + absorbs(v.comm_E));
                assert(s3.at(e) == s2.at(e).push(RoItem::Absorb(v.T)));
                assert(s4.at(e) =~= s3.at(e) + absorbs(or_empty(v.T_lookup)));
                assert(s5.at(e) =~= s4.at(e) + absorbs(concat_all(or_empty(v.comm_L))));
                assert(s6.at(e) =~= s5.at(e) + absorbs(concat_all(or_empty(v.comm_ts))));
                assert(s7.at(e) == s6.at(e).push(RoItem::Absorb(v.u)));
                assert(ro.at(e) == s7.at(e) + absorbs(v.X));
                lemma_folded_absorbed(
                    old(ro).at(e),
                    s3.at(e),
                    s6.at(e),
                    ro.at(e),
                    v,
                );
            }
        }
        Ok(())
    }

    /// Folds an instance of the step circuit into the running instance. The folded commitments
    /// and the folded claim are given.
    pub fn fold(
        &self,
        cs: &mut ConstraintSystem<E::Scalar>,
        U2: &AllocatedNonnativeR1CSInstance<E>,
        r_b: &AllocatedNum<E::Scalar>,
        T_out: &AllocatedNum<E::Scalar>,
        comm_W_fold: &AllocatedNonnativePoint<E>,
        comm_E_fold: &AllocatedNonnativePoint<E>,
    ) -> (r: Result<Self, SynthesisError>)
        requires
            old(cs).wf(),
            self.valid(*old(cs)),
            U2.valid(*old(cs)),
            old(cs).valid(*r_b),
            old(cs).valid(*T_out),
            comm_W_fold.valid(*old(cs)),
            comm_E_fold.valid(*old(cs)),
        ensures
            old(cs).grows(*final(cs)),
            r is Ok <==> self.X@.len() == 1,
            r is Err ==> refused_for(r, FOLD_ARITY@) && *final(cs) == *old(cs),
            r is Ok ==> {
                &&& r->Ok_0.valid(*final(cs))
                &&& r->Ok_0.shape() == self.shape()
                &&& forall|e: Valuation| #[trigger]
                    final(cs).admits(e) ==> r->Ok_0.at(e) == fold_val(
                        E::Scalar::modulus(),
                        self.at(e),
                        U2.X.at(e),
                        r_b.at(e),
                        T_out.at(e),
                        comm_W_fold.at(e),
                        comm_E_fold.at(e),
                    )
                &&& old(cs).records() ==> final(cs).satisfied() == old(cs).satisfied()
                &&& final(cs).layout() == lay_fold(
                    E::Scalar::modulus(),
                    old(cs).layout(),
                    self.at(Valuation::Names),
                    U2.X.at(Valuation::Names),
                    r_b.at(Valuation::Names),
                )
                &&& r->Ok_0.at(Valuation::Names) == fold_names(
                    old(cs).layout(),
                    self.at(Valuation::Names),
                    T_out.at(Valuation::Names),
                    comm_W_fold.at(Valuation::Names),
                    comm_E_fold.at(Valuation::Names),
                )
            },
    {
        if self.X.len() != 1 {
            return refuse(FOLD_ARITY);
        }
        let ghost p = E::Scalar::modulus();
        let ghost before = *cs;
        let one = ConstraintSystem::one();
        let self_X = self.X[0];
        proof {
            assert(cs.valid(self.X@[0]));
        }
        let a1 = LinearCombination::of(r_b);
        let b1 = LinearCombination::diff(&one, &self.u);
        let u_fold = mul_add(cs, a1, b1, &self.u);
        let ghost s1 = *cs;
        let a2 = LinearCombination::of(r_b);
        let b2 = LinearCombination::diff(&U2.X, &self_X);
        let X_fold = mul_add(cs, a2, b2, &self_X);
        let mut X: Vec<AllocatedNum<E::Scalar>> = Vec::new();
        X.push(X_fold);
        let r = AllocatedFoldedInstance {
            comm_W: comm_W_fold.clone(),
            comm_E: comm_E_fold.clone(),
            T: *T_out,
            T_lookup_per_table: match &self.T_lookup_per_table {
                Some(v) => Some(copy_nums(v)),
                None => None,
            },
            comm_L_per_table: match &self.comm_L_per_table {
                Some(v) => Some(copy_alloc_points(v)),
                None => None,
            },
            comm_ts_per_table: match &self.comm_ts_per_table {
                Some(v) => Some(copy_alloc_points(v)),
                None => None,
            },
            u: u_fold,
            X,
        };
        proof {
            E::Scalar::lemma_modulus();
            if self.comm_L_per_table is Some {
                let x = self.comm_L_per_table->Some_0@;
                let y = r.comm_L_per_table->Some_0@;
                assert forall|i: int| 0 <= i < y.len() implies (#[trigger] y[i]).valid(*cs) by {
                    assert(x[i].valid(before));
                }
            }
            if self.comm_ts_per_table is Some {
                let x = self.comm_ts_per_table->Some_0@;
                let y = r.comm_ts_per_table->Some_0@;
                assert forall|i: int| 0 <= i < y.len() implies (#[trigger] y[i]).valid(*cs) by {
                    assert(x[i].valid(before));
                }
            }
            let n = r.at(Valuation::Names);
            let v = self.at(Valuation::Names);
            assert(n.X =~= seq![before.layout().aux + 1int]);
            if self.comm_L_per_table is Some {
                assert(n.comm_L->Some_0 =~= v.comm_L->Some_0);
            }
            if self.comm_ts_per_table is Some {
                assert(n.comm_ts->Some_0 =~= v.comm_ts->Some_0);
            }
            assert forall|e: Valuation| #[trigger] cs.admits(e) implies r.at(e) == fold_val(
                p,
                self.at(e),
                U2.X.at(e),
                r_b.at(e),
                T_out.at(e),
                comm_W_fold.at(e),
                comm_E_fold.at(e),
            ) by {
                assert(s1.admits(e));
                assert(before.admits(e));
                assert(one.at(e) == 1);
                assert(a1.at(e) == r_b.at(e) && a2.at(e) == r_b.at(e));
                assert(b1.at(e) == (1 - self.u.at(e)) % p);
                assert(b2.at(e) == (U2.X.at(e) - self_X.at(e)) % p);
                lemma_line(p, self.u.at(e), 1, r_b.at(e));
                lemma_line(p, self_X.at(e), U2.X.at(e), r_b.at(e));
                let f = fold_val(
                    p,
                    self.at(e),
                    U2.X.at(e),
                    r_b.at(e),
                    T_out.at(e),
                    comm_W_fold.at(e),
                    comm_E_fold.at(e),
                );
                assert(r.at(e).X =~= f.X);
                if self.comm_L_per_table is Some {
                    assert(r.at(e).comm_L->Some_0 =~= f.comm_L->Some_0);
                }
                if self.comm_ts_per_table is Some {
                    assert(r.at(e).comm_ts->Some_0 =~= f.comm_ts->Some_0);
                }
            }
        }
        Ok(r)
    }

    /// The folded instance with the folded data of the tables put in place of the old one.
    pub fn from_lookup_fold_output(
        u_fold: Self,
        t_lookup_out_per_table: Vec<AllocatedNum<E::Scalar>>,
        comm_L_fold_per_table: Vec<AllocatedNonnativePoint<E>>,
        comm_ts_fold_per_table: Vec<AllocatedNonnativePoint<E>>,
    ) -> (r: Self)
        ensures
            r.comm_W == u_fold.comm_W,
            r.comm_E == u_fold.comm_E,
            r.T == u_fold.T,
            r.u == u_fold.u,
            r.X == u_fold.X,
            r.T_lookup_per_table == Some(t_lookup_out_per_table),
            r.comm_L_per_table == Some(comm_L_fold_per_table),
            r.comm_ts_per_table == Some(comm_ts_fold_per_table),
    {
        AllocatedFoldedInstance {
            comm_W: u_fold.comm_W,
            comm_E: u_fold.comm_E,
            T: u_fold.T,
            T_lookup_per_table: Some(t_lookup_out_per_table),
            comm_L_per_table: Some(comm_L_fold_per_table),
            comm_ts_per_table: Some(comm_ts_fold_per_table),
            u: u_fold.u,
            X: u_fold.X,
        }
    }

    /// This instance where the condition holds, the other where it does not. The two must have
    /// the same shape.
    pub fn conditionally_select(
        &self,
        cs: &mut ConstraintSystem<E::Scalar>,
        other: &Self,
        condition: &Boolean<E::Scalar>,
    ) -> (r: Result<Self, SynthesisError>)
        requires
            old(cs).wf(),
            self.valid(*old(cs)),
            other.valid(*old(cs)),
            condition.valid(*old(cs)),
        ensures
            old(cs).grows(*final(cs)),
            r is Ok <==> self.shape() == other.shape(),
            r is Err ==> refused_for(
                r,
                if self.shape().X != other.shape().X {
                    SELECT_X@
                } else if self.shape().T_lookup != other.shape().T_lookup {
                    SELECT_T_LOOKUP@
                } else if self.shape().comm_L != other.shape().comm_L {
                    SELECT_COMM_L@
                } else {
                    SELECT_COMM_TS@
                },
            ),
            r is Ok ==> {
                &&& r->Ok_0.valid(*final(cs))
                &&& r->Ok_0.shape() == self.shape()
                &&& forall|e: Valuation| #[trigger]
                    final(cs).admits(e) ==> r->Ok_0.at(e) == if condition.at(e) {
                        self.at(e)
                    } else {
                        other.at(e)
                    }
                &&& old(cs).records() ==> final(cs).satisfied() == old(cs).satisfied()
                &&& final(cs).layout() == lay_select_folded(
                    E::Scalar::modulus(),
                    old(cs).layout(),
                    self.at(Valuation::Names),
                    other.at(Valuation::Names),
                    condition.laid(),
                )
                &&& r->Ok_0.at(Valuation::Names) == fresh_folded(
                    old(cs).layout().aux,
                    self.shape(),
                )
            },
    {
        let comm_W = AllocatedNonnativePoint::conditionally_select(
            cs,
            &self.comm_W,
            &other.comm_W,
            condition,
        );
        let ghost s1 = *cs;
        let comm_E = AllocatedNonnativePoint::conditionally_select(
            cs,
            &self.comm_E,
            &other.comm_E,
            condition,
        );
        let ghost s2 = *cs;
        let T = conditionally_select(cs, &self.T, &other.T, condition);
        let ghost s3 = *cs;
        let u = conditionally_select(cs, &self.u, &other.u, condition);
        let ghost s4 = *cs;
        if self.X.len() != other.X.len() {
            return refuse(SELECT_X);
        }
        let X = conditionally_select_vec(cs, &self.X, &other.X, condition);
        let ghost s5 = *cs;
        let T_lookup_per_table = match select_opt_nums(
            cs,
            &self.T_lookup_per_table,
            &other.T_lookup_per_table,
            condition,
            SELECT_T_LOOKUP,
        ) {
            Ok(v) => v,
            Err(e) => {
                return Err(e);
            },
        };
        let ghost s6 = *cs;
        let comm_L_per_table = match select_opt_points(
            cs,
            &self.comm_L_per_table,
            &other.comm_L_per_table,
            condition,
            SELECT_COMM_L,
        ) {
            Ok(v) => v,
            Err(e) => {
                return Err(e);
            },
        };
        let ghost s7 = *cs;
        let comm_ts_per_table = match select_opt_points(
            cs,
            &self.comm_ts_per_table,
            &other.comm_ts_per_table,
            condition,
            SELECT_COMM_TS,
        ) {
            Ok(v) => v,
            Err(e) => {
                return Err(e);
            },
        };
        let r = AllocatedFoldedInstance {
            comm_W,
            comm_E,
            T,
            T_lookup_per_table,
            comm_L_per_table,
            comm_ts_per_table,
            u,
            X,
        };
        proof {
            assert forall|e: Valuation| #[trigger] cs.admits(e) implies r.at(e) == if condition.at(
                e,
            ) {
                self.at(e)
            } else {
                other.at(e)
            } by {
                assert(s7.admits(e));
                assert(s6.admits(e));
                assert(s5.admits(e));
                assert(s4.admits(e));
                assert(s3.admits(e));
                assert(s2.admits(e));
                assert(s1.admits(e));
            }
        }
        Ok(r)
    }
}

fn repeat_num<F: PrimeField>(n: AllocatedNum<F>, k: usize) -> (r: Vec<AllocatedNum<F>>)
    ensures
        r@.len() == k,
        forall|i: int| 0 <= i < k ==> #[trigger] r@[i] == n,
{
    let mut r: Vec<AllocatedNum<F>> = Vec::new();
    let mut i: usize = 0;
    while i < k
        invariant
            i <= k,
            r@.len() == i,
            forall|j: int| 0 <= j < i ==> #[trigger] r@[j] == n,
        decreases k - i,
    {
        r.push(n);
        i = i + 1;
    }
    r
}

fn repeat_point<E: Engine>(n: &AllocatedNonnativePoint<E>, k: usize) -> (r: Vec<
    AllocatedNonnativePoint<E>,
>)
    ensures
        r@.len() == k,
        forall|i: int| 0 <= i < k ==> (#[trigger] r@[i]).limbs@ == n.limbs@,
{
    let mut r: Vec<AllocatedNonnativePoint<E>> = Vec::new();
    let mut i: usize = 0;
    while i < k
        invariant
            i <= k,
            r@.len() == i,
            forall|j: int| 0 <= j < i ==> (#[trigger] r@[j]).limbs@ == n.limbs@,
        decreases k - i,
    {
        r.push(n.clone());
        i = i + 1;
    }
    r
}

/// An instance inside of a constraint system is hashed as the instance outside of it that it
/// stands for, whatever was taken in before.
pub proof fn law_hashed_alike<E: Engine>(
    U: FoldedInstance<E>,
    laid_out: AllocatedFoldedInstance<E>,
    e: Valuation,
    before: RO2Circuit<E>,
    after: RO2Circuit<E>,
    native_before: RO2<E>,
    native_after: RO2<E>,
    num_bits: usize,
)
    requires
        laid_out.at(e) == U@,
        before.at(e) == native_before@,
        after.at(e) == before.at(e) + absorbs(folded_inputs(laid_out.at(e))),
        native_after@ == native_before@ + absorbs(folded_inputs(U@)),
    ensures
        E::challenge(after.at(e), num_bits) == E::challenge(native_after@, num_bits),
{
}

/// Instances of the same layout that differ are taken in differently.
pub proof fn law_taken_in_apart<E: Engine>(
    a: AllocatedFoldedInstance<E>,
    b: AllocatedFoldedInstance<E>,
    e: Valuation,
    before: Seq<RoItem<int>>,
)
    requires
        same_layout(a.at(e), b.at(e)),
        a.at(e) != b.at(e),
    ensures
        before + absorbs(folded_inputs(a.at(e))) != before + absorbs(folded_inputs(b.at(e))),
{
    let (v, w) = (folded_inputs(a.at(e)), folded_inputs(b.at(e)));
    if before + absorbs(v) == before + absorbs(w) {
        let n = before.len() as int;
        assert((before + absorbs(v)).skip(n) =~= absorbs(v));
        assert((before + absorbs(w)).skip(n) =~= absorbs(w));
        assert(v.len() == absorbs(v).len());
        assert(w.len() == absorbs(w).len());
        assert forall|i: int| 0 <= i < v.len() implies v[i] == w[i] by {
            assert(absorbs(v)[i] == RoItem::Absorb(v[i]));
            assert(absorbs(w)[i] == RoItem::Absorb(w[i]));
        }
        assert(v =~= w);
        law_inputs_determine(a.at(e), b.at(e));
    }
}

/// A folded instance inside a circuit reads, under every valuation, as what its numbers and points
/// read as.
pub proof fn law_allocated_read<E: Engine>(a: AllocatedFoldedInstance<E>, e: Valuation)
    ensures
        a.at(e).comm_W == nums_at(a.comm_W.limbs@, e),
        a.at(e).comm_E == nums_at(a.comm_E.limbs@, e),
        a.at(e).T == a.T.at(e),
        a.at(e).u == a.u.at(e),
        a.at(e).X.len() == a.X@.len(),
        forall|i: int| 0 <= i < a.X@.len() ==> a.at(e).X[i] == (#[trigger] a.X@[i]).at(e),
        a.at(e).T_lookup is Some <==> a.T_lookup_per_table is Some,
        a.T_lookup_per_table is Some ==> {
            &&& a.at(e).T_lookup->Some_0.len() == a.T_lookup_per_table->Some_0@.len()
            &&& forall|j: int|
                0 <= j < a.T_lookup_per_table->Some_0@.len() ==> a.at(e).T_lookup->Some_0[j] == (
                #[trigger] a.T_lookup_per_table->Some_0@[j]).at(e)
        },
        a.at(e).comm_L is Some <==> a.comm_L_per_table is Some,
        a.comm_L_per_table is Some ==> {
            &&& a.at(e).comm_L->Some_0.len() == a.comm_L_per_table->Some_0@.len()
            &&& forall|j: int|
                0 <= j < a.comm_L_per_table->Some_0@.len() ==> a.at(e).comm_L->Some_0[j]
                    == nums_at((#[trigger] a.comm_L_per_table->Some_0@[j]).limbs@, e)
        },
        a.at(e).comm_ts is Some <==> a.comm_ts_per_table is Some,
        a.comm_ts_per_table is Some ==> {
            &&& a.at(e).comm_ts->Some_0.len() == a.comm_ts_per_table->Some_0@.len()
            &&& forall|j: int|
                0 <= j < a.comm_ts_per_table->Some_0@.len() ==> a.at(e).comm_ts->Some_0[j]
                    == nums_at((#[trigger] a.comm_ts_per_table->Some_0@[j]).limbs@, e)
        },
{
}

/// The line through `a` at zero and `b` at one is `a` times `1 - r` plus `b` times `r`.
pub proof fn law_line_mixes(p: int, a: int, b: int, r: int)
    ensures
        line(p, a, b, 0) == a % p,
        line(p, a, b, 1) == b % p,
        line(p, a, b, r) == ((1 - r) * a + r * b) % p,
{
    assert(a + r * (b - a) == (1 - r) * a + r * b) by (nonlinear_arith);
    assert(0 * (b - a) == 0);
}

} // verus!
