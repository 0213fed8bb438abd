//! Group elements in a circuit over the field of their scalars.

use crate::engine::{identity_coordinates, Engine, Group, RO2Circuit, RoItem, POINT_LIMBS, RO2};
use crate::field::PrimeField;
use crate::frontend::{fresh, once, unit, AllocatedNum, ConstraintSystem, Layout, Valuation};
use crate::gadgets::{
    alloc_one, alloc_zero, conditionally_select_vec, lay_product, lay_selects, lay_zero, nums_at,
    nums_valid, Boolean,
};
use vstd::prelude::*;

verus! {

/// A list of numbers taken in by a random oracle.
pub open spec fn absorbs(s: Seq<int>) -> Seq<RoItem<int>> {
    Seq::new(s.len(), |i: int| RoItem::Absorb(s[i]))
}

/// What is taken in tells lists apart.
pub proof fn law_absorbs_apart(a: Seq<int>, b: Seq<int>)
    requires
        absorbs(a) == absorbs(b),
    ensures
        a == b,
{
    assert(absorbs(a).len() == a.len() && absorbs(b).len() == b.len());
    assert forall|i: int| 0 <= i < a.len() implies a[i] == b[i] by {
        assert(absorbs(a)[i] == RoItem::Absorb(a[i]));
        assert(absorbs(b)[i] == RoItem::Absorb(b[i]));
    }
    assert(a =~= b);
}

/// Taking in two lists is taking in the one and the other.
pub proof fn lemma_absorbs_add(a: Seq<int>, b: Seq<int>)
    ensures
        absorbs(a + b) == absorbs(a) + absorbs(b),
{
    assert(absorbs(a + b) =~= absorbs(a) + absorbs(b));
}

/// Takes in the numbers of a sequence.
pub fn absorb_nums<E: Engine>(ro: &mut RO2Circuit<E>, v: &Vec<AllocatedNum<E::Scalar>>)
    ensures
        forall|cs: ConstraintSystem<E::Scalar>|
            old(ro).valid(cs) && nums_valid(cs, v@) ==> #[trigger] final(ro).valid(cs),
        forall|e: Valuation| #[trigger]
            final(ro).at(e) == old(ro).at(e) + absorbs(nums_at(v@, e)),
{
    let n: usize = v.len();
    let mut i: usize = 0;
    proof {
        assert forall|e: Valuation| #[trigger] ro.at(e) == old(ro).at(e) + absorbs(
            nums_at(v@, e).take(0),
        ) by {
            assert(ro.at(e) =~= old(ro).at(e) + absorbs(nums_at(v@, e).take(0)));
        }
    }
    while i < n
        invariant
            i <= n,
            n == v@.len(),
            forall|cs: ConstraintSystem<E::Scalar>|
                old(ro).valid(cs) && nums_valid(cs, v@) ==> #[trigger] ro.valid(cs),
            forall|e: Valuation| #[trigger]
                ro.at(e) == old(ro).at(e) + absorbs(nums_at(v@, e).take(i as int)),
        decreases n - i,
    {
        let ghost before = *ro;
        ro.absorb(&v[i]);
        proof {
            assert forall|e: Valuation| #[trigger] ro.at(e) == old(ro).at(e) + absorbs(
                nums_at(v@, e).take(i as int + 1),
            ) by {
                assert(before.at(e) == old(ro).at(e) + absorbs(nums_at(v@, e).take(i as int)));
                assert(ro.at(e) =~= old(ro).at(e) + absorbs(nums_at(v@, e).take(i as int + 1)));
            }
            assert forall|cs: ConstraintSystem<E::Scalar>| old(ro).valid(cs) && nums_valid(
                cs,
                v@,
            ) implies #[trigger] ro.valid(cs) by {
                assert(before.valid(cs));
                assert(cs.valid(v@[i as int]));
            }
        }
        i = i + 1;
    }
    proof {
        assert forall|e: Valuation| #[trigger] ro.at(e) == old(ro).at(e) + absorbs(
            nums_at(v@, e),
        ) by {
            assert(nums_at(v@, e).take(n as int) =~= nums_at(v@, e));
        }
    }
}

/// Takes in the coordinates of a group element.
pub fn absorb_point<E: Engine>(ro: &mut RO2<E>, g: &E::GE)
    ensures
        final(ro)@ == old(ro)@ + absorbs(E::GE::coordinates(g.log())),
{
    let c = g.to_coordinates();
    let ghost want = E::GE::coordinates(g.log());
    proof {
        E::GE::lemma_coordinates(g.log());
    }
    let mut i: usize = 0;
    assert(ro@ =~= old(ro)@ + absorbs(want.take(0)));
    while i < POINT_LIMBS
        invariant
            i <= POINT_LIMBS,
            c@.len() == POINT_LIMBS,
            want.len() == POINT_LIMBS,
            forall|j: int| 0 <= j < POINT_LIMBS ==> (#[trigger] c@[j]).val() == want[j],
            ro@ == old(ro)@ + absorbs(want.take(i as int)),
        decreases POINT_LIMBS - i,
    {
        let ghost before = ro@;
        ro.absorb(c[i]);
        assert(ro@ =~= old(ro)@ + absorbs(want.take(i as int + 1)));
        i = i + 1;
    }
    assert(want.take(POINT_LIMBS as int) =~= want);
}

/// A group element in a circuit, described by the limbs of its coordinates and the mark of the
/// point at infinity.
pub struct AllocatedNonnativePoint<E: Engine> {
    /// The numbers that describe the point.
    pub limbs: Vec<AllocatedNum<E::Scalar>>,
}

impl<E: Engine> Clone for AllocatedNonnativePoint<E> {
    fn clone(&self) -> (r: Self)
        ensures
            r.limbs@ == self.limbs@,
    {
        AllocatedNonnativePoint { limbs: copy_nums(&self.limbs) }
    }
}

/// A copy of a vector of numbers.
pub fn copy_nums<F: PrimeField>(v: &Vec<AllocatedNum<F>>) -> (r: Vec<AllocatedNum<F>>)
    ensures
        r@ == v@,
{
    let n: usize = v.len();
    let mut r: Vec<AllocatedNum<F>> = Vec::new();
    let mut i: usize = 0;
    while i < n
        invariant
            i <= n,
            n == v@.len(),
            r@ == v@.take(i as int),
        decreases n - i,
    {
        r.push(v[i]);
        assert(r@ =~= v@.take(i as int + 1));
        i = i + 1;
    }
    assert(r@ =~= v@);
    r
}

impl<E: Engine> AllocatedNonnativePoint<E> {
    /// The description of the point under a valuation.
    pub open spec fn at(self, e: Valuation) -> Seq<int> {
        nums_at(self.limbs@, e)
    }

    /// The numbers that describe the point belong to the system.
    pub open spec fn valid(self, cs: ConstraintSystem<E::Scalar>) -> bool {
        self.limbs@.len() == POINT_LIMBS && nums_valid(cs, self.limbs@)
    }

    /// The first limb of the first coordinate.
    pub fn x_limb(&self) -> (r: AllocatedNum<E::Scalar>)
        requires
            self.limbs@.len() == POINT_LIMBS,
        ensures
            r == self.limbs@[0],
    {
        self.limbs[0]
    }

    /// Adds a point. One that is not given is the neutral element.
    pub fn allocate(cs: &mut ConstraintSystem<E::Scalar>, point: Option<&E::GE>) -> (r: Self)
        requires
            old(cs).wf(),
        ensures
            old(cs).grows(*final(cs)),
            r.valid(*final(cs)),
            forall|e: Valuation| #[trigger] final(cs).admits(e) == old(cs).admits(e),
            final(cs).satisfied() == old(cs).satisfied(),
            old(cs).records() ==> r.at(Valuation::Recorded) == point_coordinates::<E>(point),
            final(cs).layout() == old(cs).layout().more(POINT_LIMBS as nat),
            r.at(Valuation::Names) == fresh(old(cs).layout().aux, POINT_LIMBS as nat),
    {
        let ghost before = *cs;
        let g = match point {
            Some(g) => *g,
            None => E::GE::identity(),
        };
        let c = g.to_coordinates();
        proof {
            E::GE::lemma_coordinates(g.log());
        }
        let mut limbs: Vec<AllocatedNum<E::Scalar>> = Vec::new();
        let mut i: usize = 0;
        while i < POINT_LIMBS
            invariant
                i <= POINT_LIMBS,
                c@.len() == POINT_LIMBS,
                before.wf(),
                before.grows(*cs),
                limbs@.len() == i,
                nums_valid(*cs, limbs@),
                forall|e: Valuation| #[trigger] cs.admits(e) == before.admits(e),
                cs.satisfied() == before.satisfied(),
                before.records() ==> forall|j: int|
                    0 <= j < i ==> (#[trigger] limbs@[j]).at(Valuation::Recorded) == c@[j].val(),
                cs.layout() == before.layout().more(i as nat),
                forall|j: int|
                    0 <= j < i ==> (#[trigger] limbs@[j]).at(Valuation::Names)
                        == before.layout().aux + j,
            decreases POINT_LIMBS - i,
        {
            let x = AllocatedNum::alloc_value(cs, c[i]);
            limbs.push(x);
            i = i + 1;
        }
        let r = AllocatedNonnativePoint { limbs };
        proof {
            assert(r.at(Valuation::Names) =~= fresh(before.layout().aux, POINT_LIMBS as nat));
            if before.records() {
                assert(r.at(Valuation::Recorded) =~= point_coordinates::<E>(point));
            }
        }
        r
    }

    /// The neutral element, bound to its description by constraints.
    pub fn default(cs: &mut ConstraintSystem<E::Scalar>) -> (r: Self)
        requires
            old(cs).wf(),
        ensures
            old(cs).grows(*final(cs)),
            final(cs).size() == old(cs).size() + 2,
            r.valid(*final(cs)),
            forall|e: Valuation| #[trigger]
                final(cs).admits(e) ==> r.at(e) == identity_coordinates(),
            old(cs).records() ==> final(cs).satisfied() == old(cs).satisfied(),
            final(cs).layout() == lay_neutral(old(cs).layout()),
            r.at(Valuation::Names) == neutral_names(old(cs).layout().aux as int),
    {
        let zero = alloc_zero(cs);
        let ghost middle = *cs;
        let one = alloc_one(cs);
        let mut limbs: Vec<AllocatedNum<E::Scalar>> = Vec::new();
        let mut i: usize = 0;
        while i < POINT_LIMBS - 1
            invariant
                i <= POINT_LIMBS - 1,
                limbs@.len() == i,
                forall|j: int| 0 <= j < i ==> #[trigger] limbs@[j] == zero,
            decreases POINT_LIMBS - i,
        {
            limbs.push(zero);
            i = i + 1;
        }
        limbs.push(one);
        let r = AllocatedNonnativePoint { limbs };
        proof {
            assert(cs.valid(zero));
            assert(r.at(Valuation::Names) =~= neutral_names(old(cs).layout().aux as int));
            assert forall|e: Valuation| #[trigger] cs.admits(e) implies r.at(e)
                == identity_coordinates() by {
                assert(middle.admits(e));
                assert(r.at(e) =~= identity_coordinates());
            }
        }
        r
    }

    /// Takes in the description of the point.
    pub fn absorb_in_ro(&self, ro: &mut RO2Circuit<E>)
        ensures
            forall|cs: ConstraintSystem<E::Scalar>|
                old(ro).valid(cs) && self.valid(cs) ==> #[trigger] final(ro).valid(cs),
            forall|e: Valuation| #[trigger] final(ro).at(e) == old(ro).at(e) + absorbs(self.at(e)),
    {
        absorb_nums(ro, &self.limbs);
    }

    /// `a` where the condition holds, `b` where it does not.
    pub fn conditionally_select(
        cs: &mut ConstraintSystem<E::Scalar>,
        a: &Self,
        b: &Self,
        condition: &Boolean<E::Scalar>,
    ) -> (r: Self)
        requires
            old(cs).wf(),
            a.valid(*old(cs)),
            b.valid(*old(cs)),
            condition.valid(*old(cs)),
        ensures
            old(cs).grows(*final(cs)),
            r.valid(*final(cs)),
            forall|e: Valuation| #[trigger]
                final(cs).admits(e) ==> r.at(e) == if condition.at(e) {
                    a.at(e)
                } else {
                    b.at(e)
                },
            old(cs).records() ==> final(cs).satisfied() == old(cs).satisfied(),
            final(cs).layout() == lay_selects(
                E::Scalar::modulus(),
                old(cs).layout(),
                a.at(Valuation::Names),
                b.at(Valuation::Names),
                condition.laid(),
                POINT_LIMBS as nat,
            ),
            final(cs).layout().aux == old(cs).layout().aux + POINT_LIMBS,
            r.at(Valuation::Names) == fresh(old(cs).layout().aux, POINT_LIMBS as nat),
    {
        AllocatedNonnativePoint { limbs: conditionally_select_vec(cs, &a.limbs, &b.limbs, condition) }
    }
}

/// What a system becomes when the neutral element is added.
pub open spec fn lay_neutral(l: Layout) -> Layout {
    lay_product(lay_zero(l), once(unit()), once(unit()))
}

/// The names by which the neutral element is described: that of a zero, and after it that of a
/// one.
pub open spec fn neutral_names(zero: int) -> Seq<int> {
    Seq::new(
        POINT_LIMBS as nat,
        |i: int|
            if i < POINT_LIMBS - 1 {
                zero
            } else {
                zero + 1
            },
    )
}

/// The description of a group element, that of the neutral one where none is given.
pub open spec fn point_coordinates<E: Engine>(point: Option<&E::GE>) -> Seq<int> {
    match point {
        Some(g) => E::GE::coordinates(g.log()),
        None => identity_coordinates(),
    }
}

} // verus!
