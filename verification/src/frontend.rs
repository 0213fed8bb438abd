//! Rank-one constraint systems, their variables and the numbers allocated in them.

use crate::commitment::copy_scalars;
use crate::errors::SynthesisError;
use crate::field::{
    lemma_cong_add, lemma_cong_mul, lemma_reduced, lemma_residue, PrimeField,
};
use crate::poly::vals;
use crate::structure::{mat_fits, mat_row};
use vstd::prelude::*;

verus! {

/// A variable of a constraint system.
#[derive(Clone, Copy, Debug, PartialEq, Eq, Structural)]
pub enum Variable {
    /// The constant one.
    One,
    /// A public value.
    Input(usize),
    /// A private value.
    Aux(usize),
}

/// A number that stands in a constraint system: its variable, and its value where one is known.
#[derive(Clone, Copy, Debug)]
pub struct AllocatedNum<F: PrimeField> {
    /// The value, where the constraint system records values.
    pub value: Option<F>,
    /// The variable that carries the number.
    pub variable: Variable,
}

/// A way to read a number of a constraint system as an integer.
pub enum Valuation {
    /// By a map from variables to integers, taken modulo the field's order.
    Assigned(spec_fn(Variable) -> int),
    /// By the value that was recorded when the number was allocated.
    Recorded,
    /// By the name of its variable. No system allows this valuation: it tells numbers apart by
    /// where they stand, whatever their values.
    Names,
}

/// The name of a variable.
pub open spec fn name_of(v: Variable) -> int {
    match v {
        Variable::One => -1,
        Variable::Input(i) => -2 - i,
        Variable::Aux(i) => i as int,
    }
}

/// A constraint as it is laid out: each combination as the names of its variables with their
/// coefficients.
pub struct Row {
    pub a: Seq<(int, int)>,
    pub b: Seq<(int, int)>,
    pub c: Seq<(int, int)>,
}

/// What a system consists of, apart from the values that it records: how many public and how many
/// private values it has, and its constraints.
#[verifier::ext_equal]
pub struct Layout {
    pub inputs: nat,
    pub aux: nat,
    pub rows: Seq<Row>,
}

impl Layout {
    /// The layout with more private values.
    pub open spec fn more(self, n: nat) -> Layout {
        Layout { aux: self.aux + n, ..self }
    }

    /// The layout with one more public value.
    pub open spec fn more_public(self) -> Layout {
        Layout { inputs: self.inputs + 1, ..self }
    }

    /// The layout with one more constraint.
    pub open spec fn row(
        self,
        a: Seq<(int, int)>,
        b: Seq<(int, int)>,
        c: Seq<(int, int)>,
    ) -> Layout {
        Layout { rows: self.rows.push(Row { a, b, c }), ..self }
    }
}

/// The sum of the terms of a combination, given what each name stands for, before reduction.
pub open spec fn terms_read(p: int, t: Seq<(int, int)>, w: spec_fn(int) -> int) -> int
    decreases t.len(),
{
    if t.len() == 0 {
        0
    } else {
        terms_read(p, t.drop_last(), w) + t.last().1 * (w(t.last().0) % p)
    }
}

/// A constraint is met, given what each name stands for.
pub open spec fn row_met(p: int, r: Row, w: spec_fn(int) -> int) -> bool {
    ((terms_read(p, r.a, w) % p) * (terms_read(p, r.b, w) % p)) % p == terms_read(p, r.c, w) % p
}

impl Layout {
    /// Every constraint is met, given what each name stands for.
    pub open spec fn met_by(self, p: int, w: spec_fn(int) -> int) -> bool {
        &&& w(unit()) == 1
        &&& forall|i: int| 0 <= i < self.rows.len() ==> row_met(p, #[trigger] self.rows[i], w)
    }
}

/// What a vector with `n` private values gives to a name.
pub open spec fn read_name(n: nat, z: Seq<int>) -> spec_fn(int) -> int {
    |name: int|
        if name >= 0 {
            z[name]
        } else if name == unit() {
            z[n as int]
        } else {
            z[n + 1 + (-2 - name)]
        }
}

/// The layout of an empty system.
pub open spec fn empty_layout() -> Layout {
    Layout { inputs: 0, aux: 0, rows: Seq::empty() }
}

/// The name of the constant one.
pub open spec fn unit() -> int {
    name_of(Variable::One)
}

/// What a system becomes when a number is made public.
pub open spec fn lay_public(l: Layout, n: int) -> Layout {
    l.more_public().row(once(-2 - l.inputs), once(unit()), once(n))
}

/// The combination that is one number.
pub open spec fn once(n: int) -> Seq<(int, int)> {
    seq![(n, 1int)]
}

/// The combination that is the difference of two numbers.
pub open spec fn less(p: int, a: int, b: int) -> Seq<(int, int)> {
    seq![(a, 1int), (b, (-1int) % p)]
}

/// The names of private values that are added one after the other.
pub open spec fn fresh(start: nat, n: nat) -> Seq<int> {
    Seq::new(n, |i: int| start + i)
}

impl<F: PrimeField> AllocatedNum<F> {
    /// The number read under a valuation.
    pub open spec fn at(self, e: Valuation) -> int {
        match e {
            Valuation::Assigned(w) => w(self.variable) % F::modulus(),
            Valuation::Recorded => self.value->Some_0.val(),
            Valuation::Names => name_of(self.variable),
        }
    }

    /// The value of the number, where one is known.
    pub fn get_value(&self) -> (r: Option<F>)
        ensures
            r == self.value,
    {
        self.value
    }

    /// The variable that carries the number.
    pub fn get_variable(&self) -> (r: Variable)
        ensures
            r == self.variable,
    {
        self.variable
    }
}

/// What a number reads as lies in the range of representatives.
pub broadcast proof fn lemma_at_range<F: PrimeField>(n: AllocatedNum<F>, e: Valuation)
    ensures
        e !is Names ==> 0 <= #[trigger] n.at(e) < F::modulus(),
{
    F::lemma_modulus();
    match e {
        Valuation::Assigned(w) => {
            lemma_residue(F::modulus(), w(n.variable));
        },
        Valuation::Recorded => {
            F::lemma_val(n.value->Some_0);
        },
        Valuation::Names => {},
    }
}

/// A sum of numbers of a constraint system, each with a coefficient.
pub struct LinearCombination<F: PrimeField> {
    /// The terms: a number and its coefficient.
    pub terms: Vec<(AllocatedNum<F>, F)>,
}

/// The value of a sum of terms under a valuation, before reduction.
pub open spec fn terms_at<F: PrimeField>(terms: Seq<(AllocatedNum<F>, F)>, e: Valuation) -> int
    decreases terms.len(),
{
    if terms.len() == 0 {
        0
    } else {
        terms_at(terms.drop_last(), e) + terms.last().1.val() * terms.last().0.at(e)
    }
}

impl<F: PrimeField> LinearCombination<F> {
    /// The value of the combination under a valuation.
    pub closed spec fn at(self, e: Valuation) -> int {
        terms_at(self.terms@, e) % F::modulus()
    }

    /// The combination as it is laid out.
    pub closed spec fn laid(self) -> Seq<(int, int)> {
        Seq::new(
            self.terms@.len(),
            |i: int| (self.terms@[i].0.at(Valuation::Names), self.terms@[i].1.val()),
        )
    }

    /// Every number of the combination belongs to the constraint system.
    pub closed spec fn valid(self, cs: ConstraintSystem<F>) -> bool {
        forall|i: int| 0 <= i < self.terms@.len() ==> cs.valid(#[trigger] self.terms@[i].0)
    }

    /// The numbers of a combination stay valid as the system grows.
    pub proof fn lemma_valid_grows(self, before: ConstraintSystem<F>, later: ConstraintSystem<F>)
        requires
            before.grows(later),
            self.valid(before),
        ensures
            self.valid(later),
    {
    }

    /// A sum lies in the range of representatives.
    pub proof fn lemma_range(self, e: Valuation)
        ensures
            0 <= self.at(e) < F::modulus(),
    {
        F::lemma_modulus();
        lemma_residue(F::modulus(), terms_at(self.terms@, e));
    }

    /// The empty sum.
    pub fn zero() -> (r: Self)
        ensures
            forall|e: Valuation| e !is Names ==> #[trigger] r.at(e) == 0,
            forall|cs: ConstraintSystem<F>| #[trigger] r.valid(cs),
            r.laid() == Seq::<(int, int)>::empty(),
    {
        let r = LinearCombination { terms: Vec::new() };
        proof {
            assert(r.laid() =~= Seq::<(int, int)>::empty());
            F::lemma_modulus();
            lemma_reduced(F::modulus(), 0);
        }
        r
    }

    /// The combination that is one number.
    pub fn of(n: &AllocatedNum<F>) -> (r: Self)
        ensures
            forall|e: Valuation| e !is Names ==> #[trigger] r.at(e) == n.at(e),
            forall|cs: ConstraintSystem<F>| cs.valid(*n) ==> #[trigger] r.valid(cs),
            r.laid() == once(n.at(Valuation::Names)),
    {
        let z = Self::zero();
        let r = z.plus(n);
        proof {
            assert(r.laid() =~= once(n.at(Valuation::Names)));
            assert forall|e: Valuation| e !is Names implies #[trigger] r.at(e) == n.at(e) by {
                assert(z.at(e) == 0);
                lemma_at_range(*n, e);
                lemma_reduced(F::modulus(), n.at(e));
            }
            assert forall|cs: ConstraintSystem<F>| cs.valid(*n) implies #[trigger] r.valid(cs) by {
                assert(z.valid(cs));
            }
        }
        r
    }

    /// The difference of two numbers.
    pub fn diff(a: &AllocatedNum<F>, b: &AllocatedNum<F>) -> (r: Self)
        ensures
            forall|e: Valuation|
                e !is Names ==> #[trigger] r.at(e) == (a.at(e) - b.at(e)) % F::modulus(),
            forall|cs: ConstraintSystem<F>|
                cs.valid(*a) && cs.valid(*b) ==> #[trigger] r.valid(cs),
            r.laid() == less(F::modulus(), a.at(Valuation::Names), b.at(Valuation::Names)),
    {
        let s = Self::of(a);
        let r = s.minus(b);
        proof {
            assert(r.laid() =~= less(
                F::modulus(),
                a.at(Valuation::Names),
                b.at(Valuation::Names),
            ));
            assert forall|e: Valuation| e !is Names implies #[trigger] r.at(e) == (a.at(e)
                - b.at(e))
                % F::modulus() by {
                assert(s.at(e) == a.at(e));
            }
            assert forall|cs: ConstraintSystem<F>| cs.valid(*a) && cs.valid(*b) implies
                #[trigger] r.valid(cs) by {
                assert(s.valid(cs));
            }
        }
        r
    }

    /// The sum with one more term.
    pub fn plus_times(self, coeff: F, n: &AllocatedNum<F>) -> (r: Self)
        ensures
            forall|e: Valuation|
                e !is Names ==> #[trigger] r.at(e) == (self.at(e) + coeff.val() * n.at(e))
                    % F::modulus(),
            forall|cs: ConstraintSystem<F>|
                self.valid(cs) && cs.valid(*n) ==> #[trigger] r.valid(cs),
            r.laid() == self.laid().push((n.at(Valuation::Names), coeff.val())),
    {
        let mut terms = self.terms;
        terms.push((*n, coeff));
        let r = LinearCombination { terms };
        proof {
            assert(r.laid() =~= self.laid().push((n.at(Valuation::Names), coeff.val())));
            let p = F::modulus();
            F::lemma_modulus();
            assert(r.terms@.drop_last() =~= self.terms@);
            assert forall|e: Valuation|
                e !is Names implies #[trigger] r.at(e) == (self.at(e) + coeff.val() * n.at(e))
                % p by {
                let s = terms_at(self.terms@, e);
                let t = coeff.val() * n.at(e);
                lemma_residue(p, s);
                lemma_cong_add(p, s, t, s % p, t);
            }
            assert forall|cs: ConstraintSystem<F>| self.valid(cs) && cs.valid(*n) implies
                #[trigger] r.valid(cs) by {
                assert forall|i: int| 0 <= i < r.terms@.len() implies cs.valid(
                    #[trigger] r.terms@[i].0,
                ) by {
                    if i < self.terms@.len() {
                        assert(cs.valid(self.terms@[i].0));
                    }
                }
            }
        }
        r
    }

    /// The sum with a number added.
    pub fn plus(self, n: &AllocatedNum<F>) -> (r: Self)
        ensures
            forall|e: Valuation|
                e !is Names ==> #[trigger] r.at(e) == (self.at(e) + n.at(e)) % F::modulus(),
            forall|cs: ConstraintSystem<F>|
                self.valid(cs) && cs.valid(*n) ==> #[trigger] r.valid(cs),
            r.laid() == self.laid().push((n.at(Valuation::Names), 1int)),
    {
        let r = self.plus_times(F::one(), n);
        proof {
            assert forall|e: Valuation| e !is Names implies #[trigger] r.at(e) == (self.at(e)
                + n.at(e))
                % F::modulus() by {
                assert(1 * n.at(e) == n.at(e));
            }
        }
        r
    }

    /// The sum with a number taken away.
    pub fn minus(self, n: &AllocatedNum<F>) -> (r: Self)
        ensures
            forall|e: Valuation|
                e !is Names ==> #[trigger] r.at(e) == (self.at(e) - n.at(e)) % F::modulus(),
            forall|cs: ConstraintSystem<F>|
                self.valid(cs) && cs.valid(*n) ==> #[trigger] r.valid(cs),
            r.laid() == self.laid().push((n.at(Valuation::Names), (-1int) % F::modulus())),
    {
        let minus_one = F::zero().minus(F::one());
        let r = self.plus_times(minus_one, n);
        proof {
            let p = F::modulus();
            F::lemma_modulus();
            lemma_residue(p, -1);
            assert forall|e: Valuation| e !is Names implies #[trigger] r.at(e) == (self.at(e)
                - n.at(e)) % p by {
                lemma_cong_mul(p, minus_one.val(), n.at(e), -1, n.at(e));
                lemma_cong_add(p, self.at(e), minus_one.val() * n.at(e), self.at(e), -1 * n.at(e));
            }
        }
        r
    }
}

/// The demand that the product of two combinations is a third.
pub struct Constraint<F: PrimeField> {
    /// The first factor.
    pub a: LinearCombination<F>,
    /// The second factor.
    pub b: LinearCombination<F>,
    /// The product.
    pub c: LinearCombination<F>,
}

impl<F: PrimeField> Constraint<F> {
    /// The demand is met under a valuation.
    pub open spec fn holds(self, e: Valuation) -> bool {
        (self.a.at(e) * self.b.at(e)) % F::modulus() == self.c.at(e)
    }
}

/// A rank-one constraint system that is being laid out. It either records the values of its
/// variables or only its own shape.
pub struct ConstraintSystem<F: PrimeField> {
    witness: bool,
    inputs: Vec<F>,
    aux: Vec<F>,
    constraints: Vec<Constraint<F>>,
}

impl<F: PrimeField> ConstraintSystem<F> {
    /// The system records values.
    pub closed spec fn records(self) -> bool {
        self.witness
    }

    spec fn in_range(self, v: Variable) -> bool {
        match v {
            Variable::One => true,
            Variable::Input(i) => i < self.inputs@.len(),
            Variable::Aux(i) => i < self.aux@.len(),
        }
    }

    spec fn recorded(self, v: Variable) -> int {
        match v {
            Variable::One => 1,
            Variable::Input(i) => self.inputs@[i as int].val(),
            Variable::Aux(i) => self.aux@[i as int].val(),
        }
    }

    /// The number belongs to this system, with the value that the system records for it.
    pub closed spec fn valid(self, n: AllocatedNum<F>) -> bool {
        &&& self.in_range(n.variable)
        &&& (self.witness || n.variable is One) ==> (n.value is Some && n.value->Some_0.val()
            == self.recorded(n.variable))
    }

    /// The parts of the system fit together.
    pub closed spec fn wf(self) -> bool {
        forall|i: int|
            0 <= i < self.constraints@.len() ==> {
                &&& (#[trigger] self.constraints@[i]).a.valid(self)
                &&& self.constraints@[i].b.valid(self)
                &&& self.constraints@[i].c.valid(self)
            }
    }

    /// A valuation that the system allows: an assignment that meets every constraint, or the
    /// recorded values.
    pub open spec fn admits(self, e: Valuation) -> bool {
        match e {
            Valuation::Assigned(w) => self.met_by(w),
            Valuation::Recorded => self.records(),
            Valuation::Names => false,
        }
    }

    /// The assignment meets every constraint.
    pub closed spec fn met_by(self, w: spec_fn(Variable) -> int) -> bool {
        w(Variable::One) == 1 && self.all_hold(Valuation::Assigned(w))
    }

    spec fn all_hold(self, e: Valuation) -> bool {
        forall|i: int|
            0 <= i < self.constraints@.len() ==> (#[trigger] self.constraints@[i]).holds(e)
    }

    /// The recorded values meet every constraint.
    pub closed spec fn satisfied(self) -> bool {
        self.all_hold(Valuation::Recorded)
    }

    /// The public values under a valuation.
    pub closed spec fn io(self, e: Valuation) -> Seq<int> {
        match e {
            Valuation::Assigned(w) => Seq::new(
                self.inputs@.len(),
                |i: int| w(Variable::Input(i as usize)) % F::modulus(),
            ),
            Valuation::Recorded => Seq::new(self.inputs@.len(), |i: int| self.inputs@[i].val()),
            Valuation::Names => Seq::new(
                self.inputs@.len(),
                |i: int| name_of(Variable::Input(i as usize)),
            ),
        }
    }

    /// What the system consists of, apart from the values that it records.
    pub closed spec fn layout(self) -> Layout {
        Layout {
            inputs: self.inputs@.len(),
            aux: self.aux@.len(),
            rows: Seq::new(
                self.constraints@.len(),
                |i: int|
                    Row {
                        a: self.constraints@[i].a.laid(),
                        b: self.constraints@[i].b.laid(),
                        c: self.constraints@[i].c.laid(),
                    },
            ),
        }
    }

    /// The number of constraints.
    pub closed spec fn size(self) -> nat {
        self.constraints@.len()
    }

    /// `later` has grown out of this system: nothing that was laid out has been taken back,
    /// and no public value was added.
    pub open spec fn grows(self, later: Self) -> bool {
        &&& later.wf()
        &&& later.records() == self.records()
        &&& forall|n: AllocatedNum<F>| self.valid(n) ==> #[trigger] later.valid(n)
        &&& forall|e: Valuation| #[trigger] later.admits(e) ==> self.admits(e)
        &&& forall|e: Valuation| #[trigger] later.io(e) == self.io(e)
        &&& later.size() >= self.size()
    }

    /// An empty system that records values.
    pub fn new() -> (r: Self)
        ensures
            r.wf(),
            r.records(),
            r.satisfied(),
            r.size() == 0,
            r.layout() == empty_layout(),
            forall|e: Valuation| #[trigger] r.io(e) == Seq::<int>::empty(),
    {
        let r = ConstraintSystem {
            witness: true,
            inputs: Vec::new(),
            aux: Vec::new(),
            constraints: Vec::new(),
        };
        assert(r.layout() =~= empty_layout());
        r
    }

    /// An empty system that records its shape only.
    pub fn new_shape() -> (r: Self)
        ensures
            r.wf(),
            !r.records(),
            r.size() == 0,
            r.layout() == empty_layout(),
            forall|e: Valuation| #[trigger] r.io(e) == Seq::<int>::empty(),
    {
        let r = ConstraintSystem {
            witness: false,
            inputs: Vec::new(),
            aux: Vec::new(),
            constraints: Vec::new(),
        };
        assert(r.layout() =~= empty_layout());
        r
    }

    /// Whether the system records values.
    pub fn is_recording(&self) -> (r: bool)
        ensures
            r == self.records(),
    {
        self.witness
    }

    /// The number of constraints.
    pub fn num_constraints(&self) -> (r: usize)
        ensures
            r == self.size(),
    {
        self.constraints.len()
    }

    /// The constant one.
    pub fn one() -> (r: AllocatedNum<F>)
        ensures
            forall|cs: Self| #[trigger] cs.valid(r),
            forall|cs: Self, e: Valuation| #[trigger] cs.admits(e) ==> r.at(e) == 1,
            r.at(Valuation::Names) == unit(),
    {
        proof {
            F::lemma_modulus();
            lemma_reduced(F::modulus(), 1);
        }
        AllocatedNum { value: Some(F::one()), variable: Variable::One }
    }

    proof fn lemma_grows_by_variable(self, later: Self)
        requires
            self.wf(),
            later.witness == self.witness,
            later.constraints@ == self.constraints@,
            later.inputs@.len() >= self.inputs@.len(),
            later.aux@.len() >= self.aux@.len(),
            forall|i: int| 0 <= i < self.inputs@.len() ==> later.inputs@[i] == self.inputs@[i],
            forall|i: int| 0 <= i < self.aux@.len() ==> later.aux@[i] == self.aux@[i],
        ensures
            later.wf(),
            forall|n: AllocatedNum<F>| self.valid(n) ==> #[trigger] later.valid(n),
            forall|e: Valuation| #[trigger] later.admits(e) == self.admits(e),
            later.satisfied() == self.satisfied(),
    {
        assert forall|n: AllocatedNum<F>| self.valid(n) implies #[trigger] later.valid(n) by {
            match n.variable {
                Variable::Input(i) => {
                    assert(later.inputs@[i as int] == self.inputs@[i as int]);
                },
                Variable::Aux(i) => {
                    assert(later.aux@[i as int] == self.aux@[i as int]);
                },
                Variable::One => {},
            }
        }
        assert forall|l: LinearCombination<F>| l.valid(self) implies #[trigger] l.valid(later) by {}
        assert forall|i: int| 0 <= i < later.constraints@.len() implies {
            &&& (#[trigger] later.constraints@[i]).a.valid(later)
            &&& later.constraints@[i].b.valid(later)
            &&& later.constraints@[i].c.valid(later)
        } by {
            let c = self.constraints@[i];
            assert(c.a.valid(self) && c.b.valid(self) && c.c.valid(self));
        }
        assert forall|e: Valuation| #[trigger] later.all_hold(e) == self.all_hold(e) by {
            if self.all_hold(e) {
                assert forall|i: int| 0 <= i < later.constraints@.len() implies (
                #[trigger] later.constraints@[i]).holds(e) by {
                    assert(self.constraints@[i].holds(e));
                }
            }
            if later.all_hold(e) {
                assert forall|i: int| 0 <= i < self.constraints@.len() implies (
                #[trigger] self.constraints@[i]).holds(e) by {
                    assert(later.constraints@[i].holds(e));
                }
            }
        }
    }

    fn allocate(&mut self, value: F) -> (r: AllocatedNum<F>)
        requires
            old(self).wf(),
        ensures
            old(self).grows(*final(self)),
            final(self).valid(r),
            forall|n: AllocatedNum<F>| #[trigger] old(self).valid(n) ==> n.variable != r.variable,
            final(self).size() == old(self).size(),
            forall|e: Valuation| #[trigger] final(self).admits(e) == old(self).admits(e),
            final(self).satisfied() == old(self).satisfied(),
            old(self).records() ==> r.value is Some && r.value->Some_0.val() == value.val(),
            !old(self).records() ==> r.value is None,
            final(self).layout() == old(self).layout().more(1),
            r.at(Valuation::Names) == old(self).layout().aux,
    {
        let i: usize = self.aux.len();
        self.aux.push(value);
        proof {
            assert(self.layout() =~= old(self).layout().more(1));
            old(self).lemma_grows_by_variable(*self);
            assert forall|e: Valuation| #[trigger] self.io(e) == old(self).io(e) by {
                assert(self.io(e) =~= old(self).io(e));
            }
        }
        AllocatedNum {
            value: if self.witness {
                Some(value)
            } else {
                None
            },
            variable: Variable::Aux(i),
        }
    }

    fn alloc_input(&mut self, value: F) -> (r: AllocatedNum<F>)
        requires
            old(self).wf(),
        ensures
            final(self).wf(),
            final(self).records() == old(self).records(),
            forall|n: AllocatedNum<F>| old(self).valid(n) ==> #[trigger] final(self).valid(n),
            final(self).valid(r),
            final(self).size() == old(self).size(),
            forall|e: Valuation| #[trigger] final(self).admits(e) == old(self).admits(e),
            final(self).satisfied() == old(self).satisfied(),
            old(self).records() ==> r.value is Some && r.value->Some_0.val() == value.val(),
            !old(self).records() ==> r.value is None,
            forall|e: Valuation| #[trigger]
                final(self).admits(e) ==> final(self).io(e) == old(self).io(e).push(r.at(e)),
            final(self).layout() == old(self).layout().more_public(),
            r.at(Valuation::Names) == -2 - old(self).layout().inputs,
    {
        let i: usize = self.inputs.len();
        self.inputs.push(value);
        let r = AllocatedNum {
            value: if self.witness {
                Some(value)
            } else {
                None
            },
            variable: Variable::Input(i),
        };
        proof {
            assert(self.layout() =~= old(self).layout().more_public());
            old(self).lemma_grows_by_variable(*self);
            assert forall|e: Valuation| #[trigger] self.admits(e) implies self.io(e) == old(
                self,
            ).io(e).push(r.at(e)) by {
                assert(self.io(e) =~= old(self).io(e).push(r.at(e)));
            }
        }
        r
    }

    /// Demands that the product of `a` and `b` is `c`.
    pub fn enforce(
        &mut self,
        a: LinearCombination<F>,
        b: LinearCombination<F>,
        c: LinearCombination<F>,
    )
        requires
            old(self).wf(),
            a.valid(*old(self)),
            b.valid(*old(self)),
            c.valid(*old(self)),
        ensures
            old(self).grows(*final(self)),
            final(self).size() == old(self).size() + 1,
            forall|w: spec_fn(Variable) -> int| #[trigger]
                final(self).met_by(w) <==> old(self).met_by(w) && (a.at(Valuation::Assigned(w))
                    * b.at(Valuation::Assigned(w))) % F::modulus()
                    == c.at(Valuation::Assigned(w)),
            final(self).satisfied() <==> old(self).satisfied() && (a.at(Valuation::Recorded) * b.at(
                Valuation::Recorded,
            )) % F::modulus() == c.at(Valuation::Recorded),
            final(self).layout() == old(self).layout().row(a.laid(), b.laid(), c.laid()),
    {
        let k = Constraint { a, b, c };
        self.constraints.push(k);
        proof {
            assert(self.layout() =~= old(self).layout().row(a.laid(), b.laid(), c.laid()));
            let n = old(self).constraints@.len() as int;
            assert(self.constraints@[n] == k);
            assert forall|i: int| 0 <= i < n implies #[trigger] self.constraints@[i] == old(
                self,
            ).constraints@[i] by {}
            assert forall|m: AllocatedNum<F>| old(self).valid(m) implies #[trigger] self.valid(m)
            by {}
            assert forall|l: LinearCombination<F>| l.valid(*old(self)) implies #[trigger] l.valid(
                *self,
            ) by {}
            assert forall|i: int| 0 <= i < self.constraints@.len() implies {
                &&& (#[trigger] self.constraints@[i]).a.valid(*self)
                &&& self.constraints@[i].b.valid(*self)
                &&& self.constraints@[i].c.valid(*self)
            } by {
                if i < n {
                    let x = old(self).constraints@[i];
                    assert(x.a.valid(*old(self)) && x.b.valid(*old(self)) && x.c.valid(
                        *old(self),
                    ));
                }
            }
            assert forall|e: Valuation| #[trigger]
                self.all_hold(e) <==> old(self).all_hold(e) && k.holds(e) by {
                if self.all_hold(e) {
                    assert(self.constraints@[n].holds(e));
                    assert forall|i: int| 0 <= i < n implies (#[trigger] old(
                        self,
                    ).constraints@[i]).holds(e) by {
                        assert(self.constraints@[i].holds(e));
                    }
                }
            }
            assert forall|e: Valuation| #[trigger] self.io(e) == old(self).io(e) by {
                assert(self.io(e) =~= old(self).io(e));
            }
        }
    }

    /// Whether the recorded values meet every constraint.
    pub fn is_satisfied(&self) -> (r: bool)
        requires
            self.wf(),
            self.records(),
        ensures
            r == self.satisfied(),
    {
        let n: usize = self.constraints.len();
        let mut i: usize = 0;
        while i < n
            invariant
                i <= n,
                n == self.constraints@.len(),
                self.wf(),
                self.records(),
                forall|j: int|
                    0 <= j < i ==> (#[trigger] self.constraints@[j]).holds(Valuation::Recorded),
            decreases n - i,
        {
            let k = &self.constraints[i];
            let a = self.recorded_sum(&k.a);
            let b = self.recorded_sum(&k.b);
            let c = self.recorded_sum(&k.c);
            if !a.times(b).same(c) {
                assert(!self.constraints@[i as int].holds(Valuation::Recorded));
                return false;
            }
            i = i + 1;
        }
        true
    }

    /// The recorded value of a combination; zero in a system that does not record values.
    pub fn value_of(&self, l: &LinearCombination<F>) -> (r: F)
        requires
            self.wf(),
            l.valid(*self),
        ensures
            self.records() ==> r.val() == l.at(Valuation::Recorded),
    {
        if self.witness {
            self.recorded_sum(l)
        } else {
            F::zero()
        }
    }

    fn recorded_sum(&self, l: &LinearCombination<F>) -> (r: F)
        requires
            self.wf(),
            self.records(),
            l.valid(*self),
        ensures
            r.val() == l.at(Valuation::Recorded),
    {
        let n: usize = l.terms.len();
        let mut i: usize = 0;
        let mut acc = F::zero();
        proof {
            F::lemma_modulus();
            lemma_reduced(F::modulus(), 0);
            assert(l.terms@.take(0) =~= Seq::empty());
        }
        while i < n
            invariant
                i <= n,
                n == l.terms@.len(),
                self.wf(),
                self.records(),
                l.valid(*self),
                F::modulus() > 0,
                acc.val() == terms_at(l.terms@.take(i as int), Valuation::Recorded) % F::modulus(),
            decreases n - i,
        {
            let (num, coeff) = l.terms[i];
            proof {
                assert(self.valid(l.terms@[i as int].0));
            }
            let v = self.lookup(&num);
            let ghost before = acc.val();
            acc = acc.plus(coeff.times(v));
            proof {
                let p = F::modulus();
                let t = l.terms@.take(i as int + 1);
                assert(t.drop_last() =~= l.terms@.take(i as int));
                let s = terms_at(l.terms@.take(i as int), Valuation::Recorded);
                let x = coeff.val() * v.val();
                lemma_residue(p, s);
                lemma_residue(p, x);
                lemma_cong_add(p, before, x % p, s, x);
            }
            i = i + 1;
        }
        proof {
            assert(l.terms@.take(n as int) =~= l.terms@);
        }
        acc
    }

    fn lookup(&self, n: &AllocatedNum<F>) -> (r: F)
        requires
            self.records(),
            self.valid(*n),
        ensures
            r.val() == n.at(Valuation::Recorded),
    {
        match n.variable {
            Variable::One => F::one(),
            Variable::Input(i) => self.inputs[i],
            Variable::Aux(i) => self.aux[i],
        }
    }
}

impl<F: PrimeField> AllocatedNum<F> {
    /// Adds a private number. A system that records values needs the value.
    pub fn allocate(cs: &mut ConstraintSystem<F>, value: Option<F>) -> (r: Result<
        Self,
        SynthesisError,
    >)
        requires
            old(cs).wf(),
        ensures
            r is Err <==> old(cs).records() && value is None,
            r is Err ==> r == Err::<Self, SynthesisError>(SynthesisError::AssignmentMissing)
                && *final(cs) == *old(cs),
            r is Ok ==> {
                &&& old(cs).grows(*final(cs))
                &&& final(cs).size() == old(cs).size()
                &&& final(cs).valid(r->Ok_0)
                &&& final(cs).satisfied() == old(cs).satisfied()
                &&& forall|e: Valuation| #[trigger] final(cs).admits(e) == old(cs).admits(e)
                &&& old(cs).records() ==> r->Ok_0.at(Valuation::Recorded) == value->Some_0.val()
                &&& final(cs).layout() == old(cs).layout().more(1)
                &&& r->Ok_0.at(Valuation::Names) == old(cs).layout().aux
            },
    {
        match value {
            Some(v) => Ok(cs.allocate(v)),
            None => {
                if cs.is_recording() {
                    Err(SynthesisError::AssignmentMissing)
                } else {
                    Ok(cs.allocate(F::zero()))
                }
            },
        }
    }

    /// Adds a private number whose value is at hand.
    pub fn alloc_value(cs: &mut ConstraintSystem<F>, value: F) -> (r: Self)
        requires
            old(cs).wf(),
        ensures
            old(cs).grows(*final(cs)),
            final(cs).size() == old(cs).size(),
            final(cs).valid(r),
            forall|n: Self| #[trigger] old(cs).valid(n) ==> n.variable != r.variable,
            final(cs).satisfied() == old(cs).satisfied(),
            forall|e: Valuation| #[trigger] final(cs).admits(e) == old(cs).admits(e),
            old(cs).records() ==> r.at(Valuation::Recorded) == value.val(),
            final(cs).layout() == old(cs).layout().more(1),
            r.at(Valuation::Names) == old(cs).layout().aux,
    {
        cs.allocate(value)
    }

    /// The value of a number of a system that records values; zero in one that does not.
    pub fn value_or_zero(&self, cs: &ConstraintSystem<F>) -> (r: F)
        requires
            cs.valid(*self),
        ensures
            cs.records() ==> r.val() == self.at(Valuation::Recorded),
    {
        match self.value {
            Some(v) => v,
            None => F::zero(),
        }
    }

    /// Makes the number public.
    pub fn inputize(&self, cs: &mut ConstraintSystem<F>)
        requires
            old(cs).wf(),
            old(cs).valid(*self),
        ensures
            final(cs).wf(),
            final(cs).records() == old(cs).records(),
            final(cs).size() == old(cs).size() + 1,
            forall|n: Self| old(cs).valid(n) ==> #[trigger] final(cs).valid(n),
            forall|e: Valuation| #[trigger]
                final(cs).admits(e) ==> old(cs).admits(e) && final(cs).io(e) == old(cs).io(e).push(
                    self.at(e),
                ),
            old(cs).records() ==> final(cs).satisfied() == old(cs).satisfied(),
            final(cs).layout() == lay_public(old(cs).layout(), self.at(Valuation::Names)),
    {
        let ghost before = *cs;
        let v = self.value_or_zero(cs);
        let public = cs.alloc_input(v);
        let ghost middle = *cs;
        let one = ConstraintSystem::one();
        let a = LinearCombination::zero().plus(&public);
        let b = LinearCombination::zero().plus(&one);
        let c = LinearCombination::zero().plus(self);
        cs.enforce(a, b, c);
        proof {
            let p = F::modulus();
            F::lemma_modulus();
            assert(a.laid() =~= once(-2 - before.layout().inputs));
            assert(b.laid() =~= once(unit()));
            assert(c.laid() =~= once(self.at(Valuation::Names)));
            assert forall|e: Valuation| #[trigger] middle.admits(e) implies a.at(e) == public.at(e)
                && b.at(e) == 1 && c.at(e) == self.at(e) by {
                lemma_at_range(public, e);
                lemma_at_range(*self, e);
                lemma_reduced(p, public.at(e));
                lemma_reduced(p, self.at(e));
                lemma_reduced(p, 1);
            }
            assert forall|e: Valuation| #[trigger] cs.admits(e) implies before.admits(e) && cs.io(e)
                == before.io(e).push(self.at(e)) by {
                assert(middle.admits(e));
                lemma_at_range(public, e);
                lemma_reduced(p, public.at(e));
                assert(public.at(e) * 1 == public.at(e));
                match e {
                    Valuation::Assigned(w) => {
                        assert(cs.met_by(w));
                    },
                    Valuation::Recorded => {},
                    Valuation::Names => {},
                }
            }
            if before.records() {
                let e = Valuation::Recorded;
                assert(middle.admits(e));
                lemma_at_range(public, e);
                lemma_reduced(p, public.at(e));
                assert(public.at(e) * 1 == public.at(e));
            }
        }
    }
}

/// A constraint system as three matrices. The columns are the private values, the constant and
/// the public values.
pub struct Matrices<F: PrimeField> {
    pub num_cons: usize,
    pub num_vars: usize,
    pub num_io: usize,
    pub A: Vec<(usize, usize, F)>,
    pub B: Vec<(usize, usize, F)>,
    pub C: Vec<(usize, usize, F)>,
}

/// The values that a vector with `n` private values gives to the variables.
pub open spec fn reading(n: nat, z: Seq<int>) -> spec_fn(Variable) -> int {
    |v: Variable|
        match v {
            Variable::Aux(j) => z[j as int],
            Variable::One => z[n as int],
            Variable::Input(i) => z[n + 1 + i],
        }
}

/// The entries of a vector are reduced.
pub open spec fn all_reduced(p: int, z: Seq<int>) -> bool {
    forall|i: int| 0 <= i < z.len() ==> 0 <= #[trigger] z[i] < p
}

impl<F: PrimeField> Matrices<F> {
    /// The number of columns.
    pub open spec fn columns(self) -> nat {
        (self.num_vars + 1 + self.num_io) as nat
    }

    /// The entries lie within the dimensions.
    pub open spec fn wf(self) -> bool {
        &&& self.columns() <= usize::MAX
        &&& mat_fits(self.A@, self.num_cons as nat, self.columns())
        &&& mat_fits(self.B@, self.num_cons as nat, self.columns())
        &&& mat_fits(self.C@, self.num_cons as nat, self.columns())
    }

    /// Every constraint holds for the vector.
    pub open spec fn holds(self, z: Seq<int>) -> bool {
        let p = F::modulus();
        forall|i: int|
            0 <= i < self.num_cons ==> ((#[trigger] mat_row(self.A@, z, i)) * mat_row(
                self.B@,
                z,
                i,
            )) % p == mat_row(self.C@, z, i) % p
    }
}

impl<F: PrimeField> ConstraintSystem<F> {
    /// The number of private values.
    pub closed spec fn num_aux(self) -> nat {
        self.aux@.len()
    }

    /// The recorded private values.
    pub closed spec fn private_values(self) -> Seq<int> {
        vals(self.aux@)
    }

    /// The number of columns.
    spec fn columns(self) -> nat {
        self.aux@.len() + 1 + self.inputs@.len()
    }

    /// Writes the terms of a combination into a row of a matrix.
    fn write_row(&self, out: &mut Vec<(usize, usize, F)>, row: usize, l: &LinearCombination<F>)
        requires
            self.columns() <= usize::MAX,
            l.valid(*self),
        ensures
            forall|rows: nat|
                row < rows && mat_fits(old(out)@, rows, self.columns()) ==> #[trigger] mat_fits(
                    final(out)@,
                    rows,
                    self.columns(),
                ),
            forall|z: Seq<int>, i: int|
                z.len() == self.columns() && all_reduced(F::modulus(), z) ==> #[trigger] mat_row(
                    final(out)@,
                    z,
                    i,
                ) == mat_row(old(out)@, z, i) + if i == row {
                    terms_at(l.terms@, Valuation::Assigned(reading(self.aux@.len(), z)))
                } else {
                    0
                },
    {
        let n: usize = l.terms.len();
        let ghost p = F::modulus();
        let ghost m = self.aux@.len();
        let mut k: usize = 0;
        assert(l.terms@.take(0) =~= Seq::empty());
        while k < n
            invariant
                k <= n,
                n == l.terms@.len(),
                p == F::modulus(),
                m == self.aux@.len(),
                self.columns() <= usize::MAX,
                l.valid(*self),
                forall|rows: nat|
                    row < rows && mat_fits(old(out)@, rows, self.columns()) ==> #[trigger] mat_fits(
                        out@,
                        rows,
                        self.columns(),
                    ),
                forall|z: Seq<int>, i: int|
                    z.len() == self.columns() && all_reduced(p, z) ==> #[trigger] mat_row(
                        out@,
                        z,
                        i,
                    ) == mat_row(old(out)@, z, i) + if i == row {
                        terms_at(l.terms@.take(k as int), Valuation::Assigned(reading(m, z)))
                    } else {
                        0
                    },
            decreases n - k,
        {
            let (num, coeff) = l.terms[k];
            proof {
                assert(self.valid(l.terms@[k as int].0));
            }
            let column: usize = match num.variable {
                Variable::Aux(j) => j,
                Variable::One => self.aux.len(),
                Variable::Input(i) => self.aux.len() + 1 + i,
            };
            let ghost before = out@;
            out.push((row, column, coeff));
            proof {
                assert(out@.drop_last() =~= before);
                let t = l.terms@.take(k as int + 1);
                assert(t.drop_last() =~= l.terms@.take(k as int));
                assert forall|z: Seq<int>, i: int|
                    z.len() == self.columns() && all_reduced(p, z) implies #[trigger] mat_row(
                    out@,
                    z,
                    i,
                ) == mat_row(old(out)@, z, i) + if i == row {
                    terms_at(t, Valuation::Assigned(reading(m, z)))
                } else {
                    0
                } by {
                    assert(mat_row(before, z, i) == mat_row(old(out)@, z, i) + if i == row {
                        terms_at(l.terms@.take(k as int), Valuation::Assigned(reading(m, z)))
                    } else {
                        0
                    });
                    assert(0 <= z[column as int] < p);
                    lemma_reduced(p, z[column as int]);
                    assert(num.at(Valuation::Assigned(reading(m, z))) == z[column as int]);
                }
                assert forall|rows: nat|
                    row < rows && mat_fits(old(out)@, rows, self.columns()) implies #[trigger]
                    mat_fits(out@, rows, self.columns()) by {
                    assert(mat_fits(before, rows, self.columns()));
                    assert forall|a: int| 0 <= a < out@.len() implies (#[trigger] out@[a]).0 < rows
                        && out@[a].1 < self.columns() by {
                        if a < before.len() {
                            assert(out@[a] == before[a]);
                        }
                    }
                }
            }
            k = k + 1;
        }
        assert(l.terms@.take(n as int) =~= l.terms@);
    }

    /// The system as matrices; nothing where the columns cannot be counted.
    pub fn to_matrices(&self) -> (r: Option<Matrices<F>>)
        requires
            self.wf(),
        ensures
            r is Some <==> self.num_aux() + 1 + self.io(Valuation::Recorded).len() <= usize::MAX,
            r is Some ==> {
                let m = r->Some_0;
                &&& m.wf()
                &&& m.num_cons == self.size()
                &&& m.num_vars == self.num_aux()
                &&& m.num_io == self.io(Valuation::Recorded).len()
                &&& forall|z: Seq<int>|
                    z.len() == m.columns() && all_reduced(F::modulus(), z) && z[m.num_vars as int]
                        == 1 ==> (#[trigger] m.holds(z) <==> self.met_by(
                        reading(self.num_aux(), z),
                    ))
            },
    {
        let num_vars: usize = self.aux.len();
        let num_io: usize = self.inputs.len();
        if num_vars == usize::MAX || num_io > usize::MAX - num_vars - 1 {
            return None;
        }
        let ghost p = F::modulus();
        let num_cons: usize = self.constraints.len();
        let mut A: Vec<(usize, usize, F)> = Vec::new();
        let mut B: Vec<(usize, usize, F)> = Vec::new();
        let mut C: Vec<(usize, usize, F)> = Vec::new();
        let mut i: usize = 0;
        while i < num_cons
            invariant
                i <= num_cons,
                num_cons == self.constraints@.len(),
                p == F::modulus(),
                self.wf(),
                self.columns() <= usize::MAX,
                mat_fits(A@, num_cons as nat, self.columns()),
                mat_fits(B@, num_cons as nat, self.columns()),
                mat_fits(C@, num_cons as nat, self.columns()),
                forall|z: Seq<int>, a: int|
                    z.len() == self.columns() && all_reduced(p, z) ==> #[trigger] mat_row(
                        A@,
                        z,
                        a,
                    ) == if 0 <= a < i {
                        terms_at(
                            self.constraints@[a].a.terms@,
                            Valuation::Assigned(reading(self.aux@.len(), z)),
                        )
                    } else {
                        0
                    },
                forall|z: Seq<int>, a: int|
                    z.len() == self.columns() && all_reduced(p, z) ==> #[trigger] mat_row(
                        B@,
                        z,
                        a,
                    ) == if 0 <= a < i {
                        terms_at(
                            self.constraints@[a].b.terms@,
                            Valuation::Assigned(reading(self.aux@.len(), z)),
                        )
                    } else {
                        0
                    },
                forall|z: Seq<int>, a: int|
                    z.len() == self.columns() && all_reduced(p, z) ==> #[trigger] mat_row(
                        C@,
                        z,
                        a,
                    ) == if 0 <= a < i {
                        terms_at(
                            self.constraints@[a].c.terms@,
                            Valuation::Assigned(reading(self.aux@.len(), z)),
                        )
                    } else {
                        0
                    },
            decreases num_cons - i,
        {
            let k = &self.constraints[i];
            proof {
                assert(self.constraints@[i as int].a.valid(*self));
            }
            self.write_row(&mut A, i, &k.a);
            self.write_row(&mut B, i, &k.b);
            self.write_row(&mut C, i, &k.c);
            i = i + 1;
        }
        let m = Matrices { num_cons, num_vars, num_io, A, B, C };
        proof {
            F::lemma_modulus();
            assert forall|z: Seq<int>|
                z.len() == m.columns() && all_reduced(p, z) && z[m.num_vars as int] == 1 implies (
            #[trigger] m.holds(z) <==> self.met_by(reading(self.num_aux(), z))) by {
                let e = Valuation::Assigned(reading(self.num_aux(), z));
                assert forall|a: int| 0 <= a < num_cons implies ((#[trigger] mat_row(m.A@, z, a))
                    * mat_row(m.B@, z, a)) % p == (self.constraints@[a].a.at(e)
                    * self.constraints@[a].b.at(e)) % p && mat_row(m.C@, z, a) % p
                    == self.constraints@[a].c.at(e) by {
                    let x = mat_row(m.A@, z, a);
                    let y = mat_row(m.B@, z, a);
                    assert(mat_row(m.C@, z, a) == terms_at(self.constraints@[a].c.terms@, e));
                    lemma_residue(p, x);
                    lemma_residue(p, y);
                    lemma_cong_mul(p, x % p, y % p, x, y);
                }
                if m.holds(z) {
                    assert forall|a: int| 0 <= a < num_cons implies (
                    #[trigger] self.constraints@[a]).holds(e) by {
                        assert((mat_row(m.A@, z, a) * mat_row(m.B@, z, a)) % p == mat_row(
                            m.C@,
                            z,
                            a,
                        ) % p);
                    }
                    assert(self.met_by(reading(self.num_aux(), z)));
                }
                if self.met_by(reading(self.num_aux(), z)) {
                    assert forall|a: int| 0 <= a < num_cons implies ((
                    #[trigger] mat_row(m.A@, z, a)) * mat_row(m.B@, z, a)) % p == mat_row(
                        m.C@,
                        z,
                        a,
                    ) % p by {
                        assert(self.constraints@[a].holds(e));
                    }
                }
            }
        }
        Some(m)
    }

    /// The public values under an assignment.
    pub proof fn lemma_io(self, w: spec_fn(Variable) -> int, i: usize)
        requires
            i < self.io(Valuation::Recorded).len(),
        ensures
            self.io(Valuation::Assigned(w)).len() == self.io(Valuation::Recorded).len(),
            self.io(Valuation::Assigned(w))[i as int] == w(Variable::Input(i)) % F::modulus(),
    {
    }

    /// The recorded private values and public values.
    pub fn recorded_values(&self) -> (r: (Vec<F>, Vec<F>))
        requires
            self.wf(),
            self.records(),
        ensures
            r.0@.len() == self.num_aux(),
            vals(r.0@) == self.private_values(),
            vals(r.1@) == self.io(Valuation::Recorded),
            self.satisfied() <==> self.met_by(
                reading(self.num_aux(), vals(r.0@).push(1) + vals(r.1@)),
            ),
    {
        let aux = copy_scalars(&self.aux);
        let inputs = copy_scalars(&self.inputs);
        proof {
            assert(vals(inputs@) =~= self.io(Valuation::Recorded));
            self.lemma_recorded_reading();
        }
        (aux, inputs)
    }

    /// The recorded values meet the constraints if and only if the vector of them does.
    pub proof fn lemma_recorded_reading(self)
        requires
            self.wf(),
            self.records(),
        ensures
            self.satisfied() <==> self.met_by(
                reading(
                    self.num_aux(),
                    self.private_values().push(1) + self.io(Valuation::Recorded),
                ),
            ),
            all_reduced(
                F::modulus(),
                self.private_values().push(1) + self.io(Valuation::Recorded),
            ),
    {
        assert(vals(self.inputs@) =~= self.io(Valuation::Recorded));
        let z = vals(self.aux@).push(1) + vals(self.inputs@);
        let n = self.num_aux();
        let w = reading(n, z);
        let e = Valuation::Assigned(w);
        F::lemma_modulus();
        assert forall|i: int| 0 <= i < self.constraints@.len() implies (
        #[trigger] self.constraints@[i]).holds(e) == self.constraints@[i].holds(
            Valuation::Recorded,
        ) by {
            let c = self.constraints@[i];
            assert(c.a.valid(self));
            self.lemma_recorded_terms(c.a.terms@, z);
            self.lemma_recorded_terms(c.b.terms@, z);
            self.lemma_recorded_terms(c.c.terms@, z);
        }
        if self.satisfied() {
            assert forall|i: int| 0 <= i < self.constraints@.len() implies (
            #[trigger] self.constraints@[i]).holds(e) by {
                assert(self.constraints@[i].holds(Valuation::Recorded));
            }
        }
        if self.met_by(w) {
            assert forall|i: int| 0 <= i < self.constraints@.len() implies (
            #[trigger] self.constraints@[i]).holds(Valuation::Recorded) by {
                assert(self.constraints@[i].holds(e));
            }
        }
        assert forall|i: int| 0 <= i < z.len() implies 0 <= #[trigger] z[i] < F::modulus() by {
            if i < n {
                F::lemma_val(self.aux@[i]);
            } else if i > n {
                F::lemma_val(self.inputs@[i - n - 1]);
            }
        }
    }

    /// How many values and constraints a system has is read off its layout.
    pub proof fn lemma_layout_counts(self)
        ensures
            self.num_aux() == self.layout().aux,
            self.private_values().len() == self.layout().aux,
            self.io(Valuation::Recorded).len() == self.layout().inputs,
            self.size() == self.layout().rows.len(),
    {
    }

    /// Whether a vector meets the constraints of a system is read off its layout.
    pub proof fn lemma_met_by_layout(self, n: nat, z: Seq<int>)
        ensures
            self.met_by(reading(n, z)) <==> self.layout().met_by(F::modulus(), read_name(n, z)),
    {
        let p = F::modulus();
        let e = Valuation::Assigned(reading(n, z));
        let w = read_name(n, z);
        let rows = self.layout().rows;
        assert forall|i: int| 0 <= i < rows.len() implies row_met(p, #[trigger] rows[i], w)
            == self.constraints@[i].holds(e) by {
            let c = self.constraints@[i];
            lemma_terms_read(c.a, n, z);
            lemma_terms_read(c.b, n, z);
            lemma_terms_read(c.c, n, z);
        }
        if self.met_by(reading(n, z)) {
            assert forall|i: int| 0 <= i < rows.len() implies row_met(p, #[trigger] rows[i], w) by {
                assert(self.constraints@[i].holds(e));
            }
        }
        if self.layout().met_by(p, w) {
            assert forall|i: int| 0 <= i < self.constraints@.len() implies (
            #[trigger] self.constraints@[i]).holds(e) by {
                assert(row_met(p, rows[i], w));
            }
        }
    }

    /// Recorded terms have the values that the recorded vector gives them.
    proof fn lemma_recorded_terms(self, terms: Seq<(AllocatedNum<F>, F)>, z: Seq<int>)
        requires
            self.records(),
            z == vals(self.aux@).push(1) + vals(self.inputs@),
            forall|i: int| 0 <= i < terms.len() ==> self.valid(#[trigger] terms[i].0),
        ensures
            terms_at(terms, Valuation::Assigned(reading(self.aux@.len(), z))) == terms_at(
                terms,
                Valuation::Recorded,
            ),
        decreases terms.len(),
    {
        if terms.len() > 0 {
            let t = terms.drop_last();
            assert forall|i: int| 0 <= i < t.len() implies self.valid(#[trigger] t[i].0) by {
                assert(terms[i].0 == t[i].0);
            }
            self.lemma_recorded_terms(t, z);
            let n = terms.last().0;
            assert(self.valid(terms[terms.len() - 1].0));
            F::lemma_modulus();
            match n.variable {
                Variable::Aux(j) => {
                    F::lemma_val(self.aux@[j as int]);
                    lemma_reduced(F::modulus(), self.aux@[j as int].val());
                },
                Variable::One => {
                    lemma_reduced(F::modulus(), 1);
                },
                Variable::Input(i) => {
                    F::lemma_val(self.inputs@[i as int]);
                    lemma_reduced(F::modulus(), self.inputs@[i as int].val());
                },
            }
            assert(n.at(Valuation::Assigned(reading(self.aux@.len(), z))) == n.at(
                Valuation::Recorded,
            ));
        }
    }
}

/// A combination reads as its layout does.
proof fn lemma_terms_read<F: PrimeField>(c: LinearCombination<F>, n: nat, z: Seq<int>)
    ensures
        terms_at(c.terms@, Valuation::Assigned(reading(n, z))) == terms_read(
            F::modulus(),
            c.laid(),
            read_name(n, z),
        ),
    decreases c.terms@.len(),
{
    let t = c.terms@;
    if t.len() > 0 {
        lemma_terms_read_prefix(c, n, z, t.len());
        assert(t.take(t.len() as int) =~= t);
        assert(c.laid().take(t.len() as int) =~= c.laid());
    }
}

proof fn lemma_terms_read_prefix<F: PrimeField>(
    c: LinearCombination<F>,
    n: nat,
    z: Seq<int>,
    m: nat,
)
    requires
        m <= c.terms@.len(),
    ensures
        terms_at(c.terms@.take(m as int), Valuation::Assigned(reading(n, z))) == terms_read(
            F::modulus(),
            c.laid().take(m as int),
            read_name(n, z),
        ),
    decreases m,
{
    if m > 0 {
        lemma_terms_read_prefix(c, n, z, (m - 1) as nat);
        assert(c.terms@.take(m as int).drop_last() =~= c.terms@.take(m - 1));
        assert(c.laid().take(m as int).drop_last() =~= c.laid().take(m - 1));
        let v = c.terms@[m - 1].0.variable;
        assert(reading(n, z)(v) == read_name(n, z)(name_of(v)));
    }
}

} // verus!
