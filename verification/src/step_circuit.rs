//! Step circuits: what one step of a chain computes.

use crate::errors::SynthesisError;
use crate::field::{lemma_cong_mul, lemma_reduced, lemma_residue, PrimeField};
use crate::frontend::{
    once, unit, AllocatedNum, ConstraintSystem, Layout, LinearCombination, Valuation, Variable,
};
use crate::gadgets::{lay_mul_add, lay_product, mul_add, nums_at, nums_valid, product};
use crate::point::copy_nums;
use std::marker::PhantomData;
use vstd::arithmetic::power::{lemma_pow1, lemma_pow_adds, pow};
use vstd::arithmetic::power2::{lemma2_to64, lemma_pow2_unfold, pow2};
use vstd::prelude::*;

verus! {

/// The values that a system has recorded for some numbers, where it records values.
pub open spec fn recorded_nums<F: PrimeField>(
    cs: ConstraintSystem<F>,
    z: Seq<AllocatedNum<F>>,
) -> Option<Seq<int>> {
    if cs.records() {
        Some(nums_at(z, Valuation::Recorded))
    } else {
        None
    }
}

/// The value that a system has recorded for a number, where it records values; else zero.
pub open spec fn recorded_num<F: PrimeField>(cs: ConstraintSystem<F>, n: AllocatedNum<F>) -> int {
    if cs.records() {
        n.at(Valuation::Recorded)
    } else {
        0
    }
}

/// A step of a chain as a circuit: it relates the state before the step to the state after it.
pub trait StepCircuit<F: PrimeField> {
    /// The number of values in a state.
    spec fn width(&self) -> nat;

    /// The step may lead from `z` to `out`.
    spec fn step(&self, z: Seq<int>, out: Seq<int>) -> bool;

    /// The values that the step records for the state after it, given those of the state before
    /// it.
    spec fn output(&self, z: Seq<int>) -> Seq<int>;

    /// How many values the step yields when it is added to a system, given the recorded state
    /// before it if there is one; nothing where the step cannot be added.
    spec fn produces(&self, z: Option<Seq<int>>) -> Option<nat>;

    /// What a system becomes when the step is added to it, given the names of the state before
    /// it, and the names of the state after it. Values have no part in it.
    spec fn layout_after(&self, l: Layout, z: Seq<int>) -> (Layout, Seq<int>);

    /// The number of values in a state.
    fn arity(&self) -> (r: usize)
        ensures
            r == self.width(),
    ;

    /// Adds the step to a system and returns the state after it.
    fn synthesize(&self, cs: &mut ConstraintSystem<F>, z: &Vec<AllocatedNum<F>>) -> (r: Result<
        Vec<AllocatedNum<F>>,
        SynthesisError,
    >)
        requires
            old(cs).wf(),
            nums_valid(*old(cs), z@),
            z@.len() == self.width(),
        ensures
            old(cs).grows(*final(cs)),
            r is Ok <==> self.produces(recorded_nums(*old(cs), z@)) is Some,
            r is Ok ==> {
                &&& r->Ok_0@.len() == self.produces(recorded_nums(*old(cs), z@))->Some_0
                &&& nums_valid(*final(cs), r->Ok_0@)
                &&& forall|w: spec_fn(Variable) -> int| #[trigger]
                    final(cs).met_by(w) ==> self.step(
                        nums_at(z@, Valuation::Assigned(w)),
                        nums_at(r->Ok_0@, Valuation::Assigned(w)),
                    )
                &&& old(cs).records() ==> (final(cs).satisfied() <==> old(cs).satisfied()
                    && self.step(
                    nums_at(z@, Valuation::Recorded),
                    nums_at(r->Ok_0@, Valuation::Recorded),
                ))
                &&& old(cs).records() ==> nums_at(r->Ok_0@, Valuation::Recorded) == self.output(
                    nums_at(z@, Valuation::Recorded),
                )
                &&& (final(cs).layout(), nums_at(r->Ok_0@, Valuation::Names)) == self.layout_after(
                    old(cs).layout(),
                    nums_at(z@, Valuation::Names),
                )
            },
    ;
}

/// A step circuit that also sees the number of the step.
pub trait StepCircuitWithAux<F: PrimeField>: StepCircuit<F> {
    /// The step with the given number may lead from `z` to `out`.
    spec fn step_with_aux(&self, i: int, z: Seq<int>, out: Seq<int>) -> bool;

    /// The values that the step records for the state after it, given its number and the values
    /// of the state before it.
    spec fn output_with_aux(&self, i: int, z: Seq<int>) -> Seq<int>;

    /// How many values the step yields when it is added to a system, given its number and the
    /// recorded state before it if there are any; nothing where the step cannot be added.
    spec fn produces_with_aux(&self, i: int, z: Option<Seq<int>>) -> Option<nat>;

    /// What a system becomes when the step is added to it, given the name of its number and those
    /// of the state before it, and the names of the state after it.
    spec fn layout_after_with_aux(&self, l: Layout, i: int, z: Seq<int>) -> (Layout, Seq<int>);

    /// Adds the step to a system and returns the state after it.
    fn synthesize_with_aux(
        &self,
        cs: &mut ConstraintSystem<F>,
        i: &AllocatedNum<F>,
        z: &Vec<AllocatedNum<F>>,
    ) -> (r: Result<Vec<AllocatedNum<F>>, SynthesisError>)
        requires
            old(cs).wf(),
            old(cs).valid(*i),
            nums_valid(*old(cs), z@),
            z@.len() == self.width(),
        ensures
            old(cs).grows(*final(cs)),
            r is Ok <==> self.produces_with_aux(
                recorded_num(*old(cs), *i),
                recorded_nums(*old(cs), z@),
            ) is Some,
            r is Ok ==> {
                &&& r->Ok_0@.len() == self.produces_with_aux(
                    recorded_num(*old(cs), *i),
                    recorded_nums(*old(cs), z@),
                )->Some_0
                &&& nums_valid(*final(cs), r->Ok_0@)
                &&& forall|w: spec_fn(Variable) -> int| #[trigger]
                    final(cs).met_by(w) ==> self.step_with_aux(
                        i.at(Valuation::Assigned(w)),
                        nums_at(z@, Valuation::Assigned(w)),
                        nums_at(r->Ok_0@, Valuation::Assigned(w)),
                    )
                &&& old(cs).records() ==> (final(cs).satisfied() <==> old(cs).satisfied()
                    && self.step_with_aux(
                    i.at(Valuation::Recorded),
                    nums_at(z@, Valuation::Recorded),
                    nums_at(r->Ok_0@, Valuation::Recorded),
                ))
                &&& old(cs).records() ==> nums_at(r->Ok_0@, Valuation::Recorded)
                    == self.output_with_aux(
                    i.at(Valuation::Recorded),
                    nums_at(z@, Valuation::Recorded),
                )
                &&& (final(cs).layout(), nums_at(r->Ok_0@, Valuation::Names))
                    == self.layout_after_with_aux(
                    old(cs).layout(),
                    i.at(Valuation::Names),
                    nums_at(z@, Valuation::Names),
                )
            },
    ;
}

/// The step that keeps a state of one value.
pub struct TrivialCircuit<F: PrimeField> {
    pub _p: PhantomData<F>,
}

impl<F: PrimeField> TrivialCircuit<F> {
    /// The trivial step.
    pub fn new() -> (r: Self)
        ensures
            r == (TrivialCircuit::<F> { _p: PhantomData }),
    {
        TrivialCircuit { _p: PhantomData }
    }
}

impl<F: PrimeField> StepCircuit<F> for TrivialCircuit<F> {
    open spec fn width(&self) -> nat {
        1
    }

    open spec fn step(&self, z: Seq<int>, out: Seq<int>) -> bool {
        out == z
    }

    open spec fn output(&self, z: Seq<int>) -> Seq<int> {
        z
    }

    open spec fn produces(&self, z: Option<Seq<int>>) -> Option<nat> {
        Some(1)
    }

    open spec fn layout_after(&self, l: Layout, z: Seq<int>) -> (Layout, Seq<int>) {
        (l, z)
    }

    fn arity(&self) -> (r: usize) {
        1
    }

    fn synthesize(&self, cs: &mut ConstraintSystem<F>, z: &Vec<AllocatedNum<F>>) -> (r: Result<
        Vec<AllocatedNum<F>>,
        SynthesisError,
    >)
    {
        Ok(copy_nums(z))
    }
}

impl<F: PrimeField> StepCircuitWithAux<F> for TrivialCircuit<F> {
    open spec fn step_with_aux(&self, i: int, z: Seq<int>, out: Seq<int>) -> bool {
        self.step(z, out)
    }

    open spec fn output_with_aux(&self, i: int, z: Seq<int>) -> Seq<int> {
        self.output(z)
    }

    open spec fn produces_with_aux(&self, i: int, z: Option<Seq<int>>) -> Option<nat> {
        self.produces(z)
    }

    open spec fn layout_after_with_aux(&self, l: Layout, i: int, z: Seq<int>) -> (
        Layout,
        Seq<int>,
    ) {
        self.layout_after(l, z)
    }

    fn synthesize_with_aux(
        &self,
        cs: &mut ConstraintSystem<F>,
        i: &AllocatedNum<F>,
        z: &Vec<AllocatedNum<F>>,
    ) -> (r: Result<Vec<AllocatedNum<F>>, SynthesisError>) {
        self.synthesize(cs, z)
    }
}

/// `x` squared `n` times.
pub open spec fn squared(p: int, x: int, n: nat) -> int
    decreases n,
{
    if n == 0 {
        x
    } else {
        let y = squared(p, x, (n - 1) as nat);
        (y * y) % p
    }
}

/// The name of a number squared `n` times.
pub open spec fn squared_name(l: Layout, x: int, n: nat) -> int {
    if n == 0 {
        x
    } else {
        l.aux + n - 1
    }
}

/// What a system becomes when a number is squared `n` times.
pub open spec fn lay_squares(l: Layout, x: int, n: nat) -> Layout
    decreases n,
{
    if n == 0 {
        l
    } else {
        let y = squared_name(l, x, (n - 1) as nat);
        lay_product(lay_squares(l, x, (n - 1) as nat), once(y), once(y))
    }
}

/// The step that squares a state of one value a fixed number of times.
pub struct NonTrivialCircuit<F: PrimeField> {
    pub num_cons: usize,
    pub _p: PhantomData<F>,
}

impl<F: PrimeField> NonTrivialCircuit<F> {
    /// The step that squares `num_cons` times.
    pub fn new(num_cons: usize) -> (r: Self)
        ensures
            r.num_cons == num_cons,
    {
        NonTrivialCircuit { num_cons, _p: PhantomData }
    }
}

impl<F: PrimeField> StepCircuit<F> for NonTrivialCircuit<F> {
    open spec fn width(&self) -> nat {
        1
    }

    open spec fn step(&self, z: Seq<int>, out: Seq<int>) -> bool {
        out == self.output(z)
    }

    open spec fn output(&self, z: Seq<int>) -> Seq<int> {
        seq![squared(F::modulus(), z[0], self.num_cons as nat)]
    }

    open spec fn produces(&self, z: Option<Seq<int>>) -> Option<nat> {
        Some(1)
    }

    open spec fn layout_after(&self, l: Layout, z: Seq<int>) -> (Layout, Seq<int>) {
        let n = self.num_cons as nat;
        (lay_squares(l, z[0], n), seq![squared_name(l, z[0], n)])
    }

    fn arity(&self) -> (r: usize) {
        1
    }

    fn synthesize(&self, cs: &mut ConstraintSystem<F>, z: &Vec<AllocatedNum<F>>) -> (r: Result<
        Vec<AllocatedNum<F>>,
        SynthesisError,
    >)
    {
        let ghost before = *cs;
        let ghost p = F::modulus();
        let mut x = z[0];
        let mut i: usize = 0;
        while i < self.num_cons
            invariant
                i <= self.num_cons,
                p == F::modulus(),
                before.wf(),
                before.grows(*cs),
                cs.valid(x),
                z@.len() == 1,
                forall|e: Valuation| #[trigger]
                    cs.admits(e) ==> x.at(e) == squared(p, z@[0].at(e), i as nat),
                before.records() ==> cs.satisfied() == before.satisfied(),
                cs.layout() == lay_squares(before.layout(), z@[0].at(Valuation::Names), i as nat),
                cs.layout().aux == before.layout().aux + i,
                x.at(Valuation::Names) == squared_name(
                    before.layout(),
                    z@[0].at(Valuation::Names),
                    i as nat,
                ),
            decreases self.num_cons - i,
        {
            let ghost s0 = *cs;
            let ghost x0 = x;
            let a = LinearCombination::of(&x);
            let b = LinearCombination::of(&x);
            x = product(cs, a, b);
            proof {
                assert forall|e: Valuation| #[trigger] cs.admits(e) implies x.at(e) == squared(
                    p,
                    z@[0].at(e),
                    (i + 1) as nat,
                ) by {
                    assert(s0.admits(e));
                    assert(a.at(e) == x0.at(e) && b.at(e) == x0.at(e));
                }
            }
            i = i + 1;
        }
        let mut out: Vec<AllocatedNum<F>> = Vec::new();
        out.push(x);
        proof {
            assert(nums_at(out@, Valuation::Names) =~= seq![x.at(Valuation::Names)]);
            assert forall|e: Valuation| #[trigger] cs.admits(e) implies self.step(
                nums_at(z@, e),
                nums_at(out@, e),
            ) by {
                assert(nums_at(out@, e) =~= seq![
                    squared(p, nums_at(z@, e)[0], self.num_cons as nat),
                ]);
            }
            assert forall|w: spec_fn(Variable) -> int| #[trigger] cs.met_by(w) implies self.step(
                nums_at(z@, Valuation::Assigned(w)),
                nums_at(out@, Valuation::Assigned(w)),
            ) by {
                assert(cs.admits(Valuation::Assigned(w)));
            }
            if before.records() {
                assert(cs.admits(Valuation::Recorded));
            }
        }
        Ok(out)
    }
}

/// The step that adds its number to a state of one value. Without a number it keeps the state.
pub struct StepCounter {
}

impl StepCounter {
    /// The counting step.
    pub fn new() -> (r: Self)
        ensures
            r == (StepCounter {  }),
    {
        StepCounter {  }
    }
}

impl<F: PrimeField> StepCircuit<F> for StepCounter {
    open spec fn width(&self) -> nat {
        1
    }

    open spec fn step(&self, z: Seq<int>, out: Seq<int>) -> bool {
        out == z
    }

    open spec fn output(&self, z: Seq<int>) -> Seq<int> {
        z
    }

    open spec fn produces(&self, z: Option<Seq<int>>) -> Option<nat> {
        Some(1)
    }

    open spec fn layout_after(&self, l: Layout, z: Seq<int>) -> (Layout, Seq<int>) {
        (l, z)
    }

    fn arity(&self) -> (r: usize) {
        1
    }

    fn synthesize(&self, cs: &mut ConstraintSystem<F>, z: &Vec<AllocatedNum<F>>) -> (r: Result<
        Vec<AllocatedNum<F>>,
        SynthesisError,
    >)
    {
        Ok(copy_nums(z))
    }
}

impl<F: PrimeField> StepCircuitWithAux<F> for StepCounter {
    open spec fn step_with_aux(&self, i: int, z: Seq<int>, out: Seq<int>) -> bool {
        out == seq![(i + z[0]) % F::modulus()]
    }

    open spec fn output_with_aux(&self, i: int, z: Seq<int>) -> Seq<int> {
        seq![(i + z[0]) % F::modulus()]
    }

    open spec fn produces_with_aux(&self, i: int, z: Option<Seq<int>>) -> Option<nat> {
        Some(1)
    }

    open spec fn layout_after_with_aux(&self, l: Layout, i: int, z: Seq<int>) -> (
        Layout,
        Seq<int>,
    ) {
        (lay_mul_add(F::modulus(), l, once(i), once(unit()), z[0]), seq![l.aux as int])
    }

    fn synthesize_with_aux(
        &self,
        cs: &mut ConstraintSystem<F>,
        i: &AllocatedNum<F>,
        z: &Vec<AllocatedNum<F>>,
    ) -> (r: Result<Vec<AllocatedNum<F>>, SynthesisError>) {
        let ghost before = *cs;
        let one = ConstraintSystem::one();
        let a = LinearCombination::of(i);
        let b = LinearCombination::of(&one);
        let x = mul_add(cs, a, b, &z[0]);
        let mut out: Vec<AllocatedNum<F>> = Vec::new();
        out.push(x);
        proof {
            assert(nums_at(out@, Valuation::Names) =~= seq![x.at(Valuation::Names)]);
            assert forall|e: Valuation| #[trigger] cs.admits(e) implies StepCircuitWithAux::<
                F,
            >::step_with_aux(self, i.at(e), nums_at(z@, e), nums_at(out@, e)) by {
                assert(a.at(e) * b.at(e) == i.at(e)) by (nonlinear_arith)
                    requires
                        a.at(e) == i.at(e),
                        b.at(e) == 1,
                ;
                assert(nums_at(out@, e) =~= seq![(i.at(e) + nums_at(z@, e)[0]) % F::modulus()]);
            }
            assert forall|w: spec_fn(Variable) -> int| #[trigger]
                cs.met_by(w) implies StepCircuitWithAux::<F>::step_with_aux(
                self,
                i.at(Valuation::Assigned(w)),
                nums_at(z@, Valuation::Assigned(w)),
                nums_at(out@, Valuation::Assigned(w)),
            ) by {
                assert(cs.admits(Valuation::Assigned(w)));
            }
            if before.records() {
                assert(cs.admits(Valuation::Recorded));
            }
        }
        Ok(out)
    }
}

/// Squaring `n` times is raising to the power `2^n`.
pub proof fn law_squared_is_power(p: int, x: int, n: nat)
    requires
        p > 1,
        0 <= x < p,
    ensures
        squared(p, x, n) == pow(x, pow2(n)) % p,
    decreases n,
{
    if n == 0 {
        lemma2_to64();
        lemma_pow1(x);
        lemma_reduced(p, x);
    } else {
        let m = (n - 1) as nat;
        law_squared_is_power(p, x, m);
        let y = pow(x, pow2(m));
        lemma_residue(p, y);
        lemma_cong_mul(p, y % p, y % p, y, y);
        lemma_pow_adds(x, pow2(m), pow2(m));
        lemma_pow2_unfold(n);
        assert(pow2(n) == pow2(m) + pow2(m));
    }
}

/// The trivial step keeps its state, the counting step adds the number of the step to it where it
/// sees one and keeps it else, and the other step raises it to the power `2^n`, `n` being the
/// number of its constraints. Each admits no other state than the one that it leads to.
pub proof fn law_steps_lead_to<F: PrimeField>(
    t: TrivialCircuit<F>,
    c: StepCounter,
    s: NonTrivialCircuit<F>,
    i: int,
    x: int,
    y: int,
)
    requires
        0 <= x < F::modulus(),
    ensures
        t.output(seq![x]) == seq![x],
        t.step(seq![x], seq![y]) <==> y == x,
        t.output_with_aux(i, seq![x]) == seq![x],
        t.step_with_aux(i, seq![x], seq![y]) <==> y == x,
        <StepCounter as StepCircuit<F>>::output(&c, seq![x]) == seq![x],
        <StepCounter as StepCircuit<F>>::step(&c, seq![x], seq![y]) <==> y == x,
        <StepCounter as StepCircuitWithAux<F>>::output_with_aux(&c, i, seq![x])
            == seq![(x + i) % F::modulus()],
        <StepCounter as StepCircuitWithAux<F>>::step_with_aux(&c, i, seq![x], seq![y]) <==> y == (x
            + i) % F::modulus(),
        s.output(seq![x]) == seq![pow(x, pow2(s.num_cons as nat)) % F::modulus()],
        s.step(seq![x], seq![y]) <==> y == pow(x, pow2(s.num_cons as nat)) % F::modulus(),
{
    F::lemma_modulus();
    law_squared_is_power(F::modulus(), x, s.num_cons as nat);
    let z = squared(F::modulus(), x, s.num_cons as nat);
    assert(seq![x][0] == x && seq![y][0] == y && seq![z][0] == z);
    let w = (i + x) % F::modulus();
    assert(seq![w][0] == w);
}

} // verus!
