//! Small circuits out of which the larger ones are built.

use crate::field::{
    lemma_cong_add, lemma_cong_diff, lemma_cong_mul, lemma_cong_sub, lemma_no_zero_divisors,
    lemma_reduced, lemma_residue, PrimeField,
};
use crate::frontend::{
    fresh, lemma_at_range, less, once, unit, AllocatedNum, ConstraintSystem, Layout,
    LinearCombination, Valuation, Variable,
};
use vstd::prelude::*;

verus! {

/// What a system becomes when a number is bound to zero.
pub open spec fn lay_zero(l: Layout) -> Layout {
    l.more(1).row(Seq::empty(), Seq::empty(), once(l.aux as int))
}

/// What a system becomes when a number is bound to a product.
pub open spec fn lay_product(l: Layout, a: Seq<(int, int)>, b: Seq<(int, int)>) -> Layout {
    l.more(1).row(a, b, once(l.aux as int))
}

/// What a system becomes when a number is bound to a constant.
pub open spec fn lay_constant(l: Layout, c: int) -> Layout {
    lay_product(l, seq![(unit(), c)], once(unit()))
}

/// What a system becomes when a number is bound to a product plus a third number.
pub open spec fn lay_mul_add(
    p: int,
    l: Layout,
    a: Seq<(int, int)>,
    b: Seq<(int, int)>,
    c: int,
) -> Layout {
    l.more(1).row(a, b, less(p, l.aux as int, c))
}

/// What a system becomes when a number is bound to a quotient.
pub open spec fn lay_quotient(l: Layout, num: int, den: int) -> Layout {
    l.more(1).row(once(l.aux as int), once(den), once(num))
}

/// What a system becomes when a bit says whether two numbers are equal.
pub open spec fn lay_equals(p: int, l: Layout, a: int, b: int) -> Layout {
    let r = l.aux as int;
    l.more(2).row(once(r + 1), less(p, a, b), less(p, unit(), r)).row(
        once(r),
        less(p, a, b),
        Seq::empty(),
    )
}

/// What a system becomes when one of two numbers is chosen.
pub open spec fn lay_select(
    p: int,
    l: Layout,
    a: int,
    b: int,
    condition: Seq<(int, int)>,
) -> Layout {
    lay_mul_add(p, l, less(p, a, b), condition, b)
}

/// What a system becomes when the first `n` numbers are chosen out of two lists.
pub open spec fn lay_selects(
    p: int,
    l: Layout,
    a: Seq<int>,
    b: Seq<int>,
    condition: Seq<(int, int)>,
    n: nat,
) -> Layout
    decreases n,
{
    if n == 0 {
        l
    } else {
        lay_select(
            p,
            lay_selects(p, l, a, b, condition, (n - 1) as nat),
            a[n - 1],
            b[n - 1],
            condition,
        )
    }
}

/// A number bound to zero by a constraint.
pub fn alloc_zero<F: PrimeField>(cs: &mut ConstraintSystem<F>) -> (r: AllocatedNum<F>)
    requires
        old(cs).wf(),
    ensures
        old(cs).grows(*final(cs)),
        final(cs).size() == old(cs).size() + 1,
        final(cs).valid(r),
        forall|n: AllocatedNum<F>| #[trigger] old(cs).valid(n) ==> n.variable != r.variable,
        forall|e: Valuation| #[trigger] final(cs).admits(e) ==> r.at(e) == 0,
        old(cs).records() ==> final(cs).satisfied() == old(cs).satisfied(),
        final(cs).layout() == lay_zero(old(cs).layout()),
        r.at(Valuation::Names) == old(cs).layout().aux,
{
    let ghost before = *cs;
    let r = AllocatedNum::alloc_value(cs, F::zero());
    let ghost middle = *cs;
    let a = LinearCombination::zero();
    let b = LinearCombination::zero();
    let c = LinearCombination::of(&r);
    cs.enforce(a, b, c);
    proof {
        F::lemma_modulus();
        lemma_reduced(F::modulus(), 0);
        assert forall|e: Valuation| #[trigger] cs.admits(e) implies r.at(e) == 0 by {
            assert(middle.admits(e));
            assert(a.at(e) == 0 && b.at(e) == 0 && c.at(e) == r.at(e));
            match e {
                Valuation::Assigned(w) => {
                    assert(cs.met_by(w));
                },
                Valuation::Recorded => {},
                Valuation::Names => {},
            }
        }
        assert(a.at(Valuation::Recorded) == 0 && b.at(Valuation::Recorded) == 0);
        assert(c.at(Valuation::Recorded) == r.at(Valuation::Recorded));
    }
    r
}

/// A number bound to one by a constraint.
pub fn alloc_one<F: PrimeField>(cs: &mut ConstraintSystem<F>) -> (r: AllocatedNum<F>)
    requires
        old(cs).wf(),
    ensures
        old(cs).grows(*final(cs)),
        final(cs).size() == old(cs).size() + 1,
        final(cs).valid(r),
        forall|e: Valuation| #[trigger] final(cs).admits(e) ==> r.at(e) == 1,
        old(cs).records() ==> final(cs).satisfied() == old(cs).satisfied(),
        final(cs).layout() == lay_product(old(cs).layout(), once(unit()), once(unit())),
        r.at(Valuation::Names) == old(cs).layout().aux,
{
    let one = ConstraintSystem::one();
    let r = product(cs, LinearCombination::of(&one), LinearCombination::of(&one));
    proof {
        F::lemma_modulus();
        lemma_reduced(F::modulus(), 1);
    }
    r
}

/// A number bound to the product of two combinations.
pub fn product<F: PrimeField>(
    cs: &mut ConstraintSystem<F>,
    a: LinearCombination<F>,
    b: LinearCombination<F>,
) -> (r: AllocatedNum<F>)
    requires
        old(cs).wf(),
        a.valid(*old(cs)),
        b.valid(*old(cs)),
    ensures
        old(cs).grows(*final(cs)),
        final(cs).size() == old(cs).size() + 1,
        final(cs).valid(r),
        forall|e: Valuation| #[trigger]
            final(cs).admits(e) ==> r.at(e) == (a.at(e) * b.at(e)) % F::modulus(),
        old(cs).records() ==> final(cs).satisfied() == old(cs).satisfied(),
        final(cs).layout() == lay_product(old(cs).layout(), a.laid(), b.laid()),
        r.at(Valuation::Names) == old(cs).layout().aux,
{
    let value = cs.value_of(&a).times(cs.value_of(&b));
    let r = AllocatedNum::alloc_value(cs, value);
    let ghost middle = *cs;
    let c = LinearCombination::of(&r);
    proof {
        a.lemma_valid_grows(*old(cs), middle);
        b.lemma_valid_grows(*old(cs), middle);
    }
    cs.enforce(a, b, c);
    proof {
        assert forall|e: Valuation| #[trigger] cs.admits(e) implies r.at(e) == (a.at(e) * b.at(e))
            % F::modulus() by {
            assert(c.at(e) == r.at(e));
            match e {
                Valuation::Assigned(w) => {
                    assert(cs.met_by(w));
                },
                Valuation::Recorded => {},
                Valuation::Names => {},
            }
        }
        assert(c.at(Valuation::Recorded) == r.at(Valuation::Recorded));
    }
    r
}

/// A number bound to a constant.
pub fn alloc_constant<F: PrimeField>(cs: &mut ConstraintSystem<F>, c: F) -> (r: AllocatedNum<F>)
    requires
        old(cs).wf(),
    ensures
        old(cs).grows(*final(cs)),
        final(cs).size() == old(cs).size() + 1,
        final(cs).valid(r),
        forall|e: Valuation| #[trigger] final(cs).admits(e) ==> r.at(e) == c.val(),
        old(cs).records() ==> final(cs).satisfied() == old(cs).satisfied(),
        final(cs).layout() == lay_constant(old(cs).layout(), c.val()),
        r.at(Valuation::Names) == old(cs).layout().aux,
{
    let one = ConstraintSystem::one();
    let zero = LinearCombination::zero();
    let a = zero.plus_times(c, &one);
    let b = LinearCombination::of(&one);
    let r = product(cs, a, b);
    proof {
        F::lemma_modulus();
        F::lemma_val(c);
        lemma_reduced(F::modulus(), c.val());
        assert forall|e: Valuation| #[trigger] cs.admits(e) implies r.at(e) == c.val() by {
            assert(zero.at(e) == 0);
            assert(one.at(e) == 1);
            assert(a.at(e) == c.val());
            assert(b.at(e) == 1);
        }
    }
    r
}

/// A number bound to the product of two combinations plus a third number.
pub fn mul_add<F: PrimeField>(
    cs: &mut ConstraintSystem<F>,
    a: LinearCombination<F>,
    b: LinearCombination<F>,
    c: &AllocatedNum<F>,
) -> (r: AllocatedNum<F>)
    requires
        old(cs).wf(),
        a.valid(*old(cs)),
        b.valid(*old(cs)),
        old(cs).valid(*c),
    ensures
        old(cs).grows(*final(cs)),
        final(cs).size() == old(cs).size() + 1,
        final(cs).valid(r),
        forall|e: Valuation| #[trigger]
            final(cs).admits(e) ==> r.at(e) == (a.at(e) * b.at(e) + c.at(e)) % F::modulus(),
        old(cs).records() ==> final(cs).satisfied() == old(cs).satisfied(),
        final(cs).layout() == lay_mul_add(
            F::modulus(),
            old(cs).layout(),
            a.laid(),
            b.laid(),
            c.at(Valuation::Names),
        ),
        r.at(Valuation::Names) == old(cs).layout().aux,
{
    let ghost p = F::modulus();
    let ab = cs.value_of(&a).times(cs.value_of(&b));
    let value = ab.plus(c.value_or_zero(cs));
    let r = AllocatedNum::alloc_value(cs, value);
    let ghost middle = *cs;
    let rest = LinearCombination::diff(&r, c);
    proof {
        a.lemma_valid_grows(*old(cs), middle);
        b.lemma_valid_grows(*old(cs), middle);
    }
    cs.enforce(a, b, rest);
    proof {
        F::lemma_modulus();
        let rec = Valuation::Recorded;
        let x = a.at(rec) * b.at(rec);
        if old(cs).records() {
            lemma_residue(p, x);
            lemma_cong_add(p, x % p, c.at(rec), x, c.at(rec));
            lemma_residue(p, x + c.at(rec));
            lemma_cong_sub(p, r.at(rec), c.at(rec), x + c.at(rec), c.at(rec));
            assert(rest.at(rec) == x % p);
        }
        assert forall|e: Valuation| #[trigger] cs.admits(e) implies r.at(e) == (a.at(e) * b.at(e)
            + c.at(e)) % p by {
            assert(rest.at(e) == (r.at(e) - c.at(e)) % p);
            match e {
                Valuation::Assigned(w) => {
                    assert(cs.met_by(w));
                    let y = a.at(e) * b.at(e);
                    lemma_cong_add(p, y, c.at(e), r.at(e) - c.at(e), c.at(e));
                    lemma_at_range(r, e);
                    lemma_reduced(p, r.at(e));
                },
                Valuation::Recorded => {},
                Valuation::Names => {},
            }
        }
    }
    r
}

/// A number bound to the quotient of two others.
pub fn quotient<F: PrimeField>(
    cs: &mut ConstraintSystem<F>,
    num: &AllocatedNum<F>,
    den: &AllocatedNum<F>,
) -> (r: AllocatedNum<F>)
    requires
        old(cs).wf(),
        old(cs).valid(*num),
        old(cs).valid(*den),
        old(cs).records() ==> den.at(Valuation::Recorded) != 0,
    ensures
        old(cs).grows(*final(cs)),
        final(cs).size() == old(cs).size() + 1,
        final(cs).valid(r),
        forall|e: Valuation| #[trigger]
            final(cs).admits(e) ==> (r.at(e) * den.at(e)) % F::modulus() == num.at(e),
        old(cs).records() ==> final(cs).satisfied() == old(cs).satisfied(),
        final(cs).layout() == lay_quotient(
            old(cs).layout(),
            num.at(Valuation::Names),
            den.at(Valuation::Names),
        ),
        r.at(Valuation::Names) == old(cs).layout().aux,
{
    let ghost p = F::modulus();
    let n = num.value_or_zero(cs);
    let d = den.value_or_zero(cs);
    let inverse = match d.invert() {
        Some(i) => i,
        None => F::zero(),
    };
    let r = AllocatedNum::alloc_value(cs, n.times(inverse));
    let a = LinearCombination::of(&r);
    let b = LinearCombination::of(den);
    let c = LinearCombination::of(num);
    cs.enforce(a, b, c);
    proof {
        F::lemma_modulus();
        let rec = Valuation::Recorded;
        if old(cs).records() {
            let i = inverse.val();
            let x = num.at(rec);
            let y = den.at(rec);
            lemma_residue(p, x * i);
            lemma_cong_mul(p, r.at(rec), y, x * i, y);
            assert((x * i) * y == x * (y * i)) by (nonlinear_arith);
            lemma_reduced(p, 1);
            lemma_cong_mul(p, x, y * i, x, 1);
            assert(x * 1 == x);
            lemma_at_range(*num, rec);
            lemma_reduced(p, x);
            assert(a.at(rec) == r.at(rec) && b.at(rec) == y && c.at(rec) == x);
        }
        assert forall|e: Valuation| #[trigger] cs.admits(e) implies (r.at(e) * den.at(e)) % p
            == num.at(e) by {
            assert(a.at(e) == r.at(e) && b.at(e) == den.at(e) && c.at(e) == num.at(e));
            match e {
                Valuation::Assigned(w) => {
                    assert(cs.met_by(w));
                },
                Valuation::Recorded => {},
                Valuation::Names => {},
            }
        }
    }
    r
}

/// Demands that two combinations are equal.
pub fn enforce_equal<F: PrimeField>(
    cs: &mut ConstraintSystem<F>,
    a: LinearCombination<F>,
    b: LinearCombination<F>,
)
    requires
        old(cs).wf(),
        a.valid(*old(cs)),
        b.valid(*old(cs)),
    ensures
        old(cs).grows(*final(cs)),
        final(cs).size() == old(cs).size() + 1,
        forall|w: spec_fn(Variable) -> int| #[trigger]
            final(cs).met_by(w) <==> old(cs).met_by(w) && a.at(Valuation::Assigned(w)) == b.at(
                Valuation::Assigned(w),
            ),
        old(cs).records() ==> (final(cs).satisfied() <==> old(cs).satisfied() && a.at(
            Valuation::Recorded,
        ) == b.at(Valuation::Recorded)),
        final(cs).layout() == old(cs).layout().row(a.laid(), once(unit()), b.laid()),
{
    let one = ConstraintSystem::one();
    let unit = LinearCombination::of(&one);
    cs.enforce(a, unit, b);
    proof {
        let p = F::modulus();
        assert forall|e: Valuation| #[trigger] old(cs).admits(e) implies (a.at(e) * unit.at(e)) % p
            == a.at(e) by {
            assert(unit.at(e) == one.at(e));
            assert(one.at(e) == 1);
            a.lemma_range(e);
            lemma_reduced(p, a.at(e));
            assert(a.at(e) * 1 == a.at(e));
        }
        if old(cs).records() {
            assert(old(cs).admits(Valuation::Recorded));
        }
        assert forall|w: spec_fn(Variable) -> int| #[trigger]
            cs.met_by(w) <==> old(cs).met_by(w) && a.at(Valuation::Assigned(w)) == b.at(
                Valuation::Assigned(w),
            ) by {
            if old(cs).met_by(w) {
                assert(old(cs).admits(Valuation::Assigned(w)));
            }
        }
    }
}

/// A number that is zero or one under every valuation that the system allows.
pub open spec fn is_bit<F: PrimeField>(cs: ConstraintSystem<F>, n: AllocatedNum<F>) -> bool {
    &&& cs.valid(n)
    &&& forall|e: Valuation| #[trigger] cs.admits(e) ==> n.at(e) == 0 || n.at(e) == 1
}

/// A number that stands for a truth value.
#[derive(Clone, Copy, Debug)]
pub struct AllocatedBit<F: PrimeField> {
    /// One for true, zero for false.
    pub num: AllocatedNum<F>,
}

/// A truth value of a circuit.
#[derive(Clone, Copy, Debug)]
pub enum Boolean<F: PrimeField> {
    /// A fixed truth value.
    Constant(bool),
    /// The truth value of a bit.
    Is(AllocatedBit<F>),
    /// The opposite of the truth value of a bit.
    Not(AllocatedBit<F>),
}

impl<F: PrimeField> Boolean<F> {
    /// The truth value under a valuation.
    pub open spec fn at(self, e: Valuation) -> bool {
        match self {
            Boolean::Constant(b) => b,
            Boolean::Is(b) => b.num.at(e) == 1,
            Boolean::Not(b) => b.num.at(e) != 1,
        }
    }

    /// The truth value as a combination, as it is laid out.
    pub open spec fn laid(self) -> Seq<(int, int)> {
        match self {
            Boolean::Constant(true) => once(unit()),
            Boolean::Constant(false) => Seq::empty(),
            Boolean::Is(b) => once(b.num.at(Valuation::Names)),
            Boolean::Not(b) => less(F::modulus(), unit(), b.num.at(Valuation::Names)),
        }
    }

    /// The bit, if any, is one of the system.
    pub open spec fn valid(self, cs: ConstraintSystem<F>) -> bool {
        match self {
            Boolean::Constant(_) => true,
            Boolean::Is(b) => is_bit(cs, b.num),
            Boolean::Not(b) => is_bit(cs, b.num),
        }
    }

    /// The combination that is one where the truth value holds and zero where it does not.
    fn lc(&self, Ghost(cs): Ghost<ConstraintSystem<F>>) -> (r: LinearCombination<F>)
        requires
            self.valid(cs),
        ensures
            r.valid(cs),
            forall|e: Valuation| #[trigger]
                cs.admits(e) ==> r.at(e) == if self.at(e) {
                    1int
                } else {
                    0int
                },
            r.laid() == self.laid(),
    {
        let one = ConstraintSystem::one();
        proof {
            F::lemma_modulus();
            lemma_reduced(F::modulus(), 0);
            lemma_reduced(F::modulus(), 1);
        }
        match self {
            Boolean::Constant(true) => LinearCombination::of(&one),
            Boolean::Constant(false) => LinearCombination::zero(),
            Boolean::Is(b) => LinearCombination::of(&b.num),
            Boolean::Not(b) => LinearCombination::diff(&one, &b.num),
        }
    }
}

/// A bit that says whether two numbers are equal.
pub fn alloc_num_equals<F: PrimeField>(
    cs: &mut ConstraintSystem<F>,
    a: &AllocatedNum<F>,
    b: &AllocatedNum<F>,
) -> (r: AllocatedBit<F>)
    requires
        old(cs).wf(),
        old(cs).valid(*a),
        old(cs).valid(*b),
    ensures
        old(cs).grows(*final(cs)),
        final(cs).valid(r.num),
        forall|e: Valuation| #[trigger]
            final(cs).admits(e) ==> r.num.at(e) == if a.at(e) == b.at(e) {
                1int
            } else {
                0int
            },
        old(cs).records() ==> final(cs).satisfied() == old(cs).satisfied(),
        final(cs).layout() == lay_equals(
            F::modulus(),
            old(cs).layout(),
            a.at(Valuation::Names),
            b.at(Valuation::Names),
        ),
        r.num.at(Valuation::Names) == old(cs).layout().aux,
{
    let ghost p = F::modulus();
    let x = a.value_or_zero(cs);
    let y = b.value_or_zero(cs);
    let d = x.minus(y);
    let (bit, inverse) = match d.invert() {
        Some(i) => (F::zero(), i),
        None => (F::one(), F::one()),
    };
    let one = ConstraintSystem::one();
    let r = AllocatedNum::alloc_value(cs, bit);
    let t = AllocatedNum::alloc_value(cs, inverse);
    let t1 = LinearCombination::of(&t);
    let d1 = LinearCombination::diff(a, b);
    let r1 = LinearCombination::diff(&one, &r);
    cs.enforce(t1, d1, r1);
    let ghost middle = *cs;
    let r2 = LinearCombination::of(&r);
    let d2 = LinearCombination::diff(a, b);
    let z2 = LinearCombination::zero();
    cs.enforce(r2, d2, z2);
    proof {
        F::lemma_modulus();
        lemma_reduced(p, 0);
        lemma_reduced(p, 1);
        assert forall|e: Valuation| #[trigger] cs.admits(e) implies r.at(e) == if a.at(e) == b.at(
            e,
        ) {
            1int
        } else {
            0int
        } by {
            lemma_at_range(*a, e);
            lemma_at_range(*b, e);
            lemma_at_range(r, e);
            lemma_cong_diff(p, a.at(e), b.at(e));
            lemma_reduced(p, a.at(e));
            lemma_reduced(p, b.at(e));
            match e {
                Valuation::Assigned(w) => {
                    assert(cs.met_by(w));
                    assert(middle.met_by(w));
                    let delta = (a.at(e) - b.at(e)) % p;
                    assert(d1.at(e) == delta && d2.at(e) == delta && z2.at(e) == 0);
                    assert(r2.at(e) == r.at(e) && t1.at(e) == t.at(e));
                    assert(one.at(e) == 1);
                    assert(r1.at(e) == (1 - r.at(e)) % p);
                    lemma_reduced(p, r.at(e));
                    if a.at(e) == b.at(e) {
                        assert(t.at(e) * 0 == 0);
                        lemma_cong_diff(p, 1, r.at(e));
                    } else {
                        lemma_no_zero_divisors(p, r.at(e), delta);
                        lemma_residue(p, a.at(e) - b.at(e));
                    }
                },
                Valuation::Recorded => {},
                Valuation::Names => {},
            }
        }
        if old(cs).records() {
            let e = Valuation::Recorded;
            assert(cs.admits(e));
            assert(one.at(e) == 1);
            let delta = (a.at(e) - b.at(e)) % p;
            assert(d1.at(e) == delta && d2.at(e) == delta && z2.at(e) == 0);
            assert(r2.at(e) == r.at(e) && t1.at(e) == t.at(e));
            assert(r1.at(e) == (1 - r.at(e)) % p);
            lemma_at_range(*a, e);
            lemma_at_range(*b, e);
            lemma_cong_diff(p, a.at(e), b.at(e));
            lemma_reduced(p, a.at(e));
            lemma_reduced(p, b.at(e));
            if a.at(e) == b.at(e) {
                assert(t.at(e) * 0 == 0);
                assert(r.at(e) * 0 == 0);
            } else {
                assert(0 * delta == 0);
                assert(t.at(e) * delta == delta * t.at(e)) by (nonlinear_arith);
            }
        }
    }
    AllocatedBit { num: r }
}

impl<F: PrimeField> AllocatedBit<F> {
    /// A bit that is set where neither of two bits is.
    pub fn nor(cs: &mut ConstraintSystem<F>, a: &Self, b: &Self) -> (r: Self)
        requires
            old(cs).wf(),
            is_bit(*old(cs), a.num),
            is_bit(*old(cs), b.num),
        ensures
            old(cs).grows(*final(cs)),
            final(cs).valid(r.num),
            forall|e: Valuation| #[trigger]
                final(cs).admits(e) ==> r.num.at(e) == if a.num.at(e) == 0 && b.num.at(e) == 0 {
                    1int
                } else {
                    0int
                },
            old(cs).records() ==> final(cs).satisfied() == old(cs).satisfied(),
            final(cs).layout() == lay_product(
                old(cs).layout(),
                less(F::modulus(), unit(), a.num.at(Valuation::Names)),
                less(F::modulus(), unit(), b.num.at(Valuation::Names)),
            ),
            r.num.at(Valuation::Names) == old(cs).layout().aux,
    {
        let one = ConstraintSystem::one();
        let x = LinearCombination::diff(&one, &a.num);
        let y = LinearCombination::diff(&one, &b.num);
        let r = product(cs, x, y);
        proof {
            F::lemma_modulus();
            lemma_reduced(F::modulus(), 0);
            lemma_reduced(F::modulus(), 1);
            assert forall|e: Valuation| #[trigger] cs.admits(e) implies r.at(e) == if a.num.at(e)
                == 0 && b.num.at(e) == 0 {
                1int
            } else {
                0int
            } by {
                assert(old(cs).admits(e));
                assert(one.at(e) == 1);
                assert(x.at(e) == 1 - a.num.at(e));
                assert(y.at(e) == 1 - b.num.at(e));
                assert(x.at(e) * y.at(e) == if a.num.at(e) == 0 && b.num.at(e) == 0 {
                    1int
                } else {
                    0int
                }) by (nonlinear_arith)
                    requires
                        x.at(e) == 1 - a.num.at(e),
                        y.at(e) == 1 - b.num.at(e),
                        a.num.at(e) == 0 || a.num.at(e) == 1,
                        b.num.at(e) == 0 || b.num.at(e) == 1,
                ;
            }
        }
        AllocatedBit { num: r }
    }
}

/// `a` where the condition holds, `b` where it does not.
pub fn conditionally_select<F: PrimeField>(
    cs: &mut ConstraintSystem<F>,
    a: &AllocatedNum<F>,
    b: &AllocatedNum<F>,
    condition: &Boolean<F>,
) -> (r: AllocatedNum<F>)
    requires
        old(cs).wf(),
        old(cs).valid(*a),
        old(cs).valid(*b),
        condition.valid(*old(cs)),
    ensures
        old(cs).grows(*final(cs)),
        final(cs).valid(r),
        forall|e: Valuation| #[trigger]
            final(cs).admits(e) ==> r.at(e) == if condition.at(e) {
                a.at(e)
            } else {
                b.at(e)
            },
        old(cs).records() ==> final(cs).satisfied() == old(cs).satisfied(),
        final(cs).layout() == lay_select(
            F::modulus(),
            old(cs).layout(),
            a.at(Valuation::Names),
            b.at(Valuation::Names),
            condition.laid(),
        ),
        r.at(Valuation::Names) == old(cs).layout().aux,
{
    let ghost p = F::modulus();
    let d = LinearCombination::diff(a, b);
    let k = condition.lc(Ghost(*cs));
    let r = mul_add(cs, d, k, b);
    proof {
        F::lemma_modulus();
        assert forall|e: Valuation| #[trigger] cs.admits(e) implies r.at(e) == if condition.at(e) {
            a.at(e)
        } else {
            b.at(e)
        } by {
            assert(old(cs).admits(e));
            assert(d.at(e) == (a.at(e) - b.at(e)) % p);
            lemma_at_range(*a, e);
            lemma_at_range(*b, e);
            lemma_reduced(p, a.at(e));
            lemma_reduced(p, b.at(e));
            lemma_residue(p, a.at(e) - b.at(e));
            if condition.at(e) {
                assert(d.at(e) * 1 == d.at(e));
                lemma_cong_add(p, d.at(e), b.at(e), a.at(e) - b.at(e), b.at(e));
            } else {
                assert(d.at(e) * 0 == 0);
            }
        }
    }
    r
}

/// The numbers of a sequence under a valuation.
pub open spec fn nums_at<F: PrimeField>(v: Seq<AllocatedNum<F>>, e: Valuation) -> Seq<int> {
    Seq::new(v.len(), |i: int| v[i].at(e))
}

/// Every number of a sequence belongs to the system.
pub open spec fn nums_valid<F: PrimeField>(
    cs: ConstraintSystem<F>,
    v: Seq<AllocatedNum<F>>,
) -> bool {
    forall|i: int| 0 <= i < v.len() ==> cs.valid(#[trigger] v[i])
}

/// `a` where the condition holds, `b` where it does not, position by position.
pub fn conditionally_select_vec<F: PrimeField>(
    cs: &mut ConstraintSystem<F>,
    a: &Vec<AllocatedNum<F>>,
    b: &Vec<AllocatedNum<F>>,
    condition: &Boolean<F>,
) -> (r: Vec<AllocatedNum<F>>)
    requires
        old(cs).wf(),
        nums_valid(*old(cs), a@),
        nums_valid(*old(cs), b@),
        a@.len() == b@.len(),
        condition.valid(*old(cs)),
    ensures
        old(cs).grows(*final(cs)),
        nums_valid(*final(cs), r@),
        r@.len() == a@.len(),
        forall|e: Valuation| #[trigger]
            final(cs).admits(e) ==> nums_at(r@, e) == if condition.at(e) {
                nums_at(a@, e)
            } else {
                nums_at(b@, e)
            },
        old(cs).records() ==> final(cs).satisfied() == old(cs).satisfied(),
        final(cs).layout() == lay_selects(
            F::modulus(),
            old(cs).layout(),
            nums_at(a@, Valuation::Names),
            nums_at(b@, Valuation::Names),
            condition.laid(),
            a@.len(),
        ),
        final(cs).layout().aux == old(cs).layout().aux + a@.len(),
        nums_at(r@, Valuation::Names) == fresh(old(cs).layout().aux, a@.len()),
{
    let ghost before = *cs;
    let n: usize = a.len();
    let mut r: Vec<AllocatedNum<F>> = Vec::new();
    let mut i: usize = 0;
    while i < n
        invariant
            i <= n,
            n == a@.len(),
            n == b@.len(),
            r@.len() == i,
            before.wf(),
            before.grows(*cs),
            nums_valid(before, a@),
            nums_valid(before, b@),
            condition.valid(before),
            nums_valid(*cs, r@),
            forall|e: Valuation, j: int| #[trigger]
                cs.admits(e) && 0 <= j < i ==> (#[trigger] r@[j]).at(e) == if condition.at(e) {
                    a@[j].at(e)
                } else {
                    b@[j].at(e)
                },
            before.records() ==> cs.satisfied() == before.satisfied(),
            cs.layout() == lay_selects(
                F::modulus(),
                before.layout(),
                nums_at(a@, Valuation::Names),
                nums_at(b@, Valuation::Names),
                condition.laid(),
                i as nat,
            ),
            cs.layout().aux == before.layout().aux + i,
            forall|j: int|
                0 <= j < i ==> (#[trigger] r@[j]).at(Valuation::Names) == before.layout().aux + j,
        decreases n - i,
    {
        let ghost middle = *cs;
        proof {
            assert(cs.valid(a@[i as int]));
            assert(cs.valid(b@[i as int]));
        }
        let x = conditionally_select(cs, &a[i], &b[i], condition);
        r.push(x);
        i = i + 1;
    }
    proof {
        assert(nums_at(r@, Valuation::Names) =~= fresh(before.layout().aux, n as nat));
        assert forall|e: Valuation| #[trigger] cs.admits(e) implies nums_at(r@, e)
            == if condition.at(e) {
            nums_at(a@, e)
        } else {
            nums_at(b@, e)
        } by {
            if condition.at(e) {
                assert(nums_at(r@, e) =~= nums_at(a@, e));
            } else {
                assert(nums_at(r@, e) =~= nums_at(b@, e));
            }
        }
    }
    r
}

} // verus!
