//! A small engine to run the library with: the additive group of a field, a random oracle and a
//! transcript made of fifth powers. It withstands nobody who looks for collisions.

use crate::engine::{
    events, identity_coordinates, ro_at, ro_vals, ro_valid, Engine, Group, RoItem, TranscriptEvent,
    TranscriptItem,
};
use crate::field::{
    lemma_cong_add, lemma_cong_mul, lemma_cong_sub, lemma_reduced, lemma_residue, PrimeField,
};
use crate::frontend::{
    once, unit, AllocatedNum, ConstraintSystem, Layout, LinearCombination, Valuation,
};
use crate::gadgets::{lay_constant, lay_product, alloc_constant, product};
use std::marker::PhantomData;
use vstd::arithmetic::power::pow;
use vstd::prelude::*;
use vstd::utf8::encode_utf8;

verus! {

/// An element of the additive group of a field.
#[derive(Clone, Copy, Debug, PartialEq, Eq)]
pub struct Exponent<F: PrimeField> {
    pub v: F,
}

impl<F: PrimeField> Group<F> for Exponent<F> {
    open spec fn log(&self) -> int {
        self.v.val()
    }

    open spec fn coordinates(log: int) -> Seq<int> {
        seq![
            log,
            0int,
            0,
            0,
            0,
            0,
            0,
            0,
            if log == 0 {
                1int
            } else {
                0int
            },
        ]
    }

    proof fn lemma_coordinates(log: int) {
        assert(Self::coordinates(0) =~= identity_coordinates());
    }

    open spec fn bytes(log: int) -> Seq<u8> {
        F::bytes(log)
    }

    fn identity() -> (r: Self) {
        Exponent { v: F::zero() }
    }

    fn base() -> (r: Self) {
        Exponent { v: F::one() }
    }

    fn plus(self, other: Self) -> (r: Self) {
        Exponent { v: self.v.plus(other.v) }
    }

    fn scale(self, k: F) -> (r: Self) {
        Exponent { v: k.times(self.v) }
    }

    fn same(self, other: Self) -> (r: bool) {
        self.v.same(other.v)
    }

    fn to_coordinates(&self) -> (r: Vec<F>) {
        let zero = F::zero();
        let mark = if self.v.same(zero) {
            F::one()
        } else {
            zero
        };
        let mut r: Vec<F> = Vec::new();
        r.push(self.v);
        r.push(zero);
        r.push(zero);
        r.push(zero);
        r.push(zero);
        r.push(zero);
        r.push(zero);
        r.push(zero);
        r.push(mark);
        r
    }

    fn to_bytes(&self) -> (r: Vec<u8>) {
        self.v.to_bytes()
    }
}

/// One round: the fifth power, plus seven.
pub open spec fn mix(p: int, x: int) -> int {
    (x * x * (x * x) * x + 7) % p
}

/// The state of the random oracle after `log`.
pub open spec fn sponge(p: int, log: Seq<RoItem<int>>) -> int
    decreases log.len(),
{
    if log.len() == 0 {
        0
    } else {
        let s = sponge(p, log.drop_last());
        match log.last() {
            RoItem::Absorb(x) => mix(p, s + x),
            RoItem::Squeeze(n) => mix(p, mix(p, s + 3) + n),
        }
    }
}

/// The state of a transcript after some bytes.
pub open spec fn byte_state(p: int, s: int, bytes: Seq<u8>) -> int
    decreases bytes.len(),
{
    if bytes.len() == 0 {
        mix(p, s + 300)
    } else {
        mix(p, byte_state(p, s, bytes.drop_last()) + bytes.last())
    }
}

/// The state of a transcript after `log`.
pub open spec fn transcript_state(p: int, log: Seq<TranscriptEvent>) -> int
    decreases log.len(),
{
    if log.len() == 0 {
        0
    } else {
        let s = transcript_state(p, log.drop_last());
        match log.last() {
            TranscriptEvent::Absorb(l, d) => byte_state(p, byte_state(p, s, encode_utf8(l)), d),
            TranscriptEvent::Squeeze(l) => byte_state(p, mix(p, s), encode_utf8(l)),
        }
    }
}

/// One round on a sum.
fn mix_sum<F: PrimeField>(a: F, b: F) -> (r: F)
    ensures
        r.val() == mix(F::modulus(), a.val() + b.val()),
{
    let x = a.plus(b);
    let x2 = x.times(x);
    let x4 = x2.times(x2);
    let x5 = x4.times(x);
    let r = x5.plus(F::from_u64(7));
    proof {
        let p = F::modulus();
        F::lemma_modulus();
        lemma_residue(p, a.val() + b.val());
        lemma_residue(p, x.val() * x.val());
        lemma_residue(p, x2.val() * x2.val());
        lemma_residue(p, x4.val() * x.val());
        lemma_mix(p, a.val() + b.val(), x.val(), x2.val(), x4.val(), x5.val());
        lemma_residue(p, 7);
        let y = a.val() + b.val();
        lemma_cong_add(p, x5.val(), 7int % p, y * y * (y * y) * y, 7);
    }
    r
}

proof fn lemma_mix(p: int, y: int, x: int, x2: int, x4: int, x5: int)
    requires
        p > 0,
        x % p == y % p,
        x2 % p == (x * x) % p,
        x4 % p == (x2 * x2) % p,
        x5 % p == (x4 * x) % p,
    ensures
        x5 % p == (y * y * (y * y) * y) % p,
{
    lemma_cong_mul(p, x, x, y, y);
    lemma_cong_mul(p, x2, x2, y * y, y * y);
    lemma_cong_mul(p, x4, x, y * y * (y * y), y);
}

/// Numbers that agree modulo `p` give the same round.
proof fn lemma_mix_cong(p: int, x: int, y: int)
    requires
        p > 0,
        x % p == y % p,
    ensures
        mix(p, x) == mix(p, y),
{
    lemma_mix(p, y, x, x * x, x * x * (x * x), x * x * (x * x) * x);
    lemma_cong_add(p, x * x * (x * x) * x, 7, y * y * (y * y) * y, 7);
}

/// What a system becomes with one round on a sum.
pub open spec fn lay_mix(p: int, l: Layout, a: int, b: int) -> Layout {
    let x = l.aux as int;
    let sum = once(a).push((b, 1int));
    let l2 = lay_product(l, sum, sum);
    let l4 = lay_product(l2, once(x), once(x));
    let l5 = lay_product(l4, once(x + 1), sum);
    lay_product(l5, once(x + 2).push((unit(), 7int % p)), once(unit()))
}

/// What a system becomes when the first `n` uses of the random oracle are run in it, and the name
/// of the state after them.
pub open spec fn lay_sponge(p: int, l: Layout, log: Seq<RoItem<int>>, n: nat) -> (Layout, int)
    decreases n,
{
    if n == 0 {
        (lay_constant(l, 0), l.aux as int)
    } else {
        let (l0, s) = lay_sponge(p, l, log, (n - 1) as nat);
        match log[n - 1] {
            RoItem::Absorb(x) => (lay_mix(p, l0, s, x), l0.aux + 3int),
            RoItem::Squeeze(k) => lay_salted(p, l0, s, 3, k as int),
        }
    }
}

/// What a system becomes with two rounds on a state and two constants, and the name of the state
/// after them.
pub open spec fn lay_salted(p: int, l: Layout, s: int, a: int, b: int) -> (Layout, int) {
    let l1 = lay_constant(l, a % p);
    let l2 = lay_mix(p, l1, s, l.aux as int);
    let l3 = lay_constant(l2, b % p);
    (lay_mix(p, l3, l1.aux + 3int, l2.aux as int), l3.aux + 3int)
}

/// One round on a sum, in a circuit.
fn mix_circuit<F: PrimeField>(
    cs: &mut ConstraintSystem<F>,
    a: &AllocatedNum<F>,
    b: &AllocatedNum<F>,
) -> (r: AllocatedNum<F>)
    requires
        old(cs).wf(),
        old(cs).valid(*a),
        old(cs).valid(*b),
    ensures
        old(cs).grows(*final(cs)),
        final(cs).valid(r),
        forall|e: Valuation| #[trigger]
            final(cs).admits(e) ==> r.at(e) == mix(F::modulus(), a.at(e) + b.at(e)),
        old(cs).records() ==> final(cs).satisfied() == old(cs).satisfied(),
        final(cs).layout() == lay_mix(
            F::modulus(),
            old(cs).layout(),
            a.at(Valuation::Names),
            b.at(Valuation::Names),
        ),
        r.at(Valuation::Names) == old(cs).layout().aux + 3,
{
    let ghost p = F::modulus();
    let one = ConstraintSystem::one();
    let a1 = LinearCombination::of(a);
    let s1 = a1.plus(b);
    let a2 = LinearCombination::of(a);
    let s2 = a2.plus(b);
    let x2 = product(cs, s1, s2);
    let ghost c1 = *cs;
    let l2 = LinearCombination::of(&x2);
    let m2 = LinearCombination::of(&x2);
    let x4 = product(cs, l2, m2);
    let ghost c2 = *cs;
    let l4 = LinearCombination::of(&x4);
    let a3 = LinearCombination::of(a);
    let s3 = a3.plus(b);
    let x5 = product(cs, l4, s3);
    let ghost c3 = *cs;
    let l5 = LinearCombination::of(&x5);
    let sum = l5.plus_times(F::from_u64(7), &one);
    let unit = LinearCombination::of(&one);
    let r = product(cs, sum, unit);
    proof {
        F::lemma_modulus();
        assert forall|e: Valuation| #[trigger] cs.admits(e) implies r.at(e) == mix(
            p,
            a.at(e) + b.at(e),
        ) by {
            assert(c3.admits(e));
            assert(c2.admits(e));
            assert(c1.admits(e));
            let y = a.at(e) + b.at(e);
            assert(a1.at(e) == a.at(e) && a2.at(e) == a.at(e) && a3.at(e) == a.at(e));
            assert(s1.at(e) == y % p && s2.at(e) == y % p && s3.at(e) == y % p);
            assert(l2.at(e) == x2.at(e) && m2.at(e) == x2.at(e) && l4.at(e) == x4.at(e));
            assert(l5.at(e) == x5.at(e));
            assert(one.at(e) == 1);
            assert(unit.at(e) == 1);
            lemma_residue(p, y);
            lemma_residue(p, (y % p) * (y % p));
            lemma_residue(p, x2.at(e) * x2.at(e));
            lemma_residue(p, x4.at(e) * (y % p));
            lemma_mix(p, y, y % p, x2.at(e), x4.at(e), x5.at(e));
            lemma_residue(p, 7);
            assert(sum.at(e) == (x5.at(e) + (7int % p) * 1) % p);
            lemma_cong_add(p, x5.at(e), 7int % p, y * y * (y * y) * y, 7);
            lemma_residue(p, x5.at(e) + 7int % p);
            lemma_reduced(p, sum.at(e));
            assert(sum.at(e) * 1 == sum.at(e));
        }
    }
    r
}

/// The engine over a field.
pub struct ReferenceEngine<F: PrimeField> {
    pub _p: PhantomData<F>,
}

/// The state of the random oracle.
fn sponge_of<F: PrimeField>(log: &Vec<RoItem<F>>) -> (s: F)
    ensures
        s.val() == sponge(F::modulus(), ro_vals(log@)),
{
    let ghost p = F::modulus();
    let ghost all = ro_vals(log@);
    let n: usize = log.len();
    let mut s = F::zero();
    let mut i: usize = 0;
    while i < n
        invariant
            i <= n,
            n == log@.len(),
            p == F::modulus(),
            all == ro_vals(log@),
            s.val() == sponge(p, all.take(i as int)),
        decreases n - i,
    {
        let ghost s0 = s.val();
        proof {
            F::lemma_modulus();
            assert(all.take(i as int + 1).drop_last() =~= all.take(i as int));
        }
        match log[i] {
            RoItem::Absorb(x) => {
                s = mix_sum(s, x);
            },
            RoItem::Squeeze(k) => {
                let m = mix_sum(s, F::from_u64(3));
                let kf = F::from_u64(k as u64);
                s = mix_sum(m, kf);
                proof {
                    lemma_residue(p, 3);
                    lemma_cong_add(p, s0, 3int % p, s0, 3);
                    lemma_mix_cong(p, s0 + 3int % p, s0 + 3);
                    lemma_residue(p, k as int);
                    lemma_cong_add(p, m.val(), kf.val(), m.val(), k as int);
                    lemma_mix_cong(p, m.val() + kf.val(), m.val() + k);
                }
            },
        }
        i = i + 1;
    }
    proof {
        assert(all.take(n as int) =~= all);
    }
    s
}

/// The state of a transcript after some bytes.
fn byte_state_of<F: PrimeField>(start: F, bytes: &[u8]) -> (r: F)
    ensures
        r.val() == byte_state(F::modulus(), start.val(), bytes@),
{
    let ghost p = F::modulus();
    let n: usize = bytes.len();
    let mut s = mix_sum(start, F::from_u64(300));
    proof {
        F::lemma_modulus();
        lemma_residue(p, 300);
        lemma_cong_add(p, start.val(), 300int % p, start.val(), 300);
        lemma_mix_cong(p, start.val() + 300int % p, start.val() + 300);
        assert(bytes@.take(0) =~= Seq::<u8>::empty());
    }
    let mut i: usize = 0;
    while i < n
        invariant
            i <= n,
            n == bytes@.len(),
            p == F::modulus(),
            s.val() == byte_state(p, start.val(), bytes@.take(i as int)),
        decreases n - i,
    {
        let ghost s0 = s.val();
        let b = F::from_u64(bytes[i] as u64);
        s = mix_sum(s, b);
        proof {
            F::lemma_modulus();
            assert(bytes@.take(i as int + 1).drop_last() =~= bytes@.take(i as int));
            let v = bytes@[i as int] as int;
            lemma_residue(p, v);
            lemma_cong_add(p, s0, b.val(), s0, v);
            lemma_mix_cong(p, s0 + b.val(), s0 + v);
        }
        i = i + 1;
    }
    proof {
        assert(bytes@.take(n as int) =~= bytes@);
    }
    s
}

/// The state of a transcript.
fn transcript_state_of<F: PrimeField>(items: &Vec<TranscriptItem>) -> (s: F)
    ensures
        s.val() == transcript_state(F::modulus(), events(items@)),
{
    let ghost p = F::modulus();
    let ghost all = events(items@);
    let n: usize = items.len();
    let zero = F::zero();
    let mut s = zero;
    let mut i: usize = 0;
    while i < n
        invariant
            i <= n,
            n == items@.len(),
            p == F::modulus(),
            all == events(items@),
            zero.val() == 0,
            s.val() == transcript_state(p, all.take(i as int)),
        decreases n - i,
    {
        proof {
            assert(all.take(i as int + 1).drop_last() =~= all.take(i as int));
        }
        match &items[i] {
            TranscriptItem::Absorb(l, d) => {
                s = byte_state_of(byte_state_of(s, l.as_str().as_bytes()), d);
            },
            TranscriptItem::Squeeze(l) => {
                s = byte_state_of(mix_sum(s, zero), l.as_str().as_bytes());
            },
        }
        i = i + 1;
    }
    proof {
        assert(all.take(n as int) =~= all);
    }
    s
}

impl<F: PrimeField> Engine for ReferenceEngine<F> {
    type Scalar = F;

    type GE = Exponent<F>;

    open spec fn challenge(log: Seq<RoItem<int>>, num_bits: usize) -> int {
        let p = F::modulus();
        mix(p, mix(p, sponge(p, log) + 5) + num_bits)
    }

    open spec fn transcript_challenge(log: Seq<TranscriptEvent>) -> int {
        let p = F::modulus();
        mix(p, transcript_state(p, log))
    }

    open spec fn squeeze_layout(l: Layout, log: Seq<RoItem<int>>, num_bits: usize) -> Layout {
        let p = F::modulus();
        let (l0, s) = lay_sponge(p, l, log, log.len());
        lay_salted(p, l0, s, 5, num_bits as int).0
    }

    open spec fn squeeze_name(l: Layout, log: Seq<RoItem<int>>, num_bits: usize) -> int {
        let p = F::modulus();
        let (l0, s) = lay_sponge(p, l, log, log.len());
        lay_salted(p, l0, s, 5, num_bits as int).1
    }

    fn ro_squeeze(log: &Vec<RoItem<F>>, num_bits: usize) -> (r: F) {
        let ghost p = F::modulus();
        let s = sponge_of(log);
        let five = F::from_u64(5);
        let n = F::from_u64(num_bits as u64);
        let m = mix_sum(s, five);
        let r = mix_sum(m, n);
        proof {
            F::lemma_modulus();
            lemma_reduced(p, 5);
            lemma_residue(p, num_bits as int);
            lemma_cong_add(p, m.val(), n.val(), m.val(), num_bits as int);
            lemma_mix_cong(p, m.val() + n.val(), m.val() + num_bits);
        }
        r
    }

    fn ro_squeeze_circuit(
        cs: &mut ConstraintSystem<F>,
        log: &Vec<RoItem<AllocatedNum<F>>>,
        num_bits: usize,
    ) -> (r: AllocatedNum<F>) {
        let ghost p = F::modulus();
        let ghost before = *cs;
        let n: usize = log.len();
        let mut s = alloc_constant(cs, F::zero());
        let mut i: usize = 0;
        proof {
            assert forall|e: Valuation| #[trigger] cs.admits(e) implies s.at(e) == sponge(
                p,
                ro_at(log@, e).take(0),
            ) by {}
        }
        while i < n
            invariant
                i <= n,
                n == log@.len(),
                p == F::modulus(),
                before.wf(),
                ro_valid(before, log@),
                before.grows(*cs),
                cs.valid(s),
                forall|e: Valuation| #[trigger]
                    cs.admits(e) ==> s.at(e) == sponge(p, ro_at(log@, e).take(i as int)),
                before.records() ==> cs.satisfied() == before.satisfied(),
                (cs.layout(), s.at(Valuation::Names)) == lay_sponge(
                    p,
                    before.layout(),
                    ro_at(log@, Valuation::Names),
                    i as nat,
                ),
            decreases n - i,
        {
            let ghost c0 = *cs;
            let ghost s0 = s;
            match log[i] {
                RoItem::Absorb(x) => {
                    proof {
                        assert(match log@[i as int] {
                            RoItem::Absorb(x) => before.valid(x),
                            RoItem::Squeeze(_) => true,
                        });
                    }
                    s = mix_circuit(cs, &s, &x);
                },
                RoItem::Squeeze(k) => {
                    let three = alloc_constant(cs, F::from_u64(3));
                    let ghost c1 = *cs;
                    let m = mix_circuit(cs, &s, &three);
                    let ghost c2 = *cs;
                    let kf = alloc_constant(cs, F::from_u64(k as u64));
                    let ghost c3 = *cs;
                    s = mix_circuit(cs, &m, &kf);
                    proof {
                        F::lemma_modulus();
                        assert forall|e: Valuation| #[trigger] cs.admits(e) implies s.at(e) == mix(
                            p,
                            mix(p, s0.at(e) + 3) + k,
                        ) by {
                            assert(c3.admits(e));
                            assert(c2.admits(e));
                            assert(c1.admits(e));
                            lemma_reduced(p, 3);
                            lemma_residue(p, k as int);
                            lemma_cong_add(p, m.at(e), kf.at(e), m.at(e), k as int);
                            lemma_mix_cong(p, m.at(e) + kf.at(e), m.at(e) + k);
                        }
                    }
                },
            }
            proof {
                assert forall|e: Valuation| #[trigger] cs.admits(e) implies s.at(e) == sponge(
                    p,
                    ro_at(log@, e).take(i as int + 1),
                ) by {
                    assert(c0.admits(e));
                    let all = ro_at(log@, e);
                    assert(all.take(i as int + 1).drop_last() =~= all.take(i as int));
                }
            }
            i = i + 1;
        }
        let ghost c4 = *cs;
        let five = alloc_constant(cs, F::from_u64(5));
        let ghost c5 = *cs;
        let m = mix_circuit(cs, &s, &five);
        let ghost c6 = *cs;
        let nb = alloc_constant(cs, F::from_u64(num_bits as u64));
        let ghost c7 = *cs;
        let r = mix_circuit(cs, &m, &nb);
        proof {
            F::lemma_modulus();
            assert forall|e: Valuation| #[trigger] cs.admits(e) implies r.at(e)
                == Self::challenge(ro_at(log@, e), num_bits) by {
                assert(c7.admits(e));
                assert(c6.admits(e));
                assert(c5.admits(e));
                assert(c4.admits(e));
                assert(ro_at(log@, e).take(n as int) =~= ro_at(log@, e));
                lemma_reduced(p, 5);
                lemma_residue(p, num_bits as int);
                lemma_cong_add(p, m.at(e), nb.at(e), m.at(e), num_bits as int);
                lemma_mix_cong(p, m.at(e) + nb.at(e), m.at(e) + num_bits);
            }
        }
        r
    }

    fn transcript_squeeze(items: &Vec<TranscriptItem>) -> (r: F) {
        let s = transcript_state_of::<F>(items);
        mix_sum(s, F::zero())
    }
}

/// A round is the fifth power plus seven.
pub proof fn law_round_is_fifth_power(p: int, x: int)
    ensures
        mix(p, x) == (pow(x, 5) + 7) % p,
{
    reveal_with_fuel(pow, 6);
    let y = x * x;
    assert(y * y * x == x * (x * (x * (x * (x * 1))))) by (nonlinear_arith)
        requires
            y == x * x,
    ;
    assert(x * x * (x * x) * x == y * y * x);
}

/// Rounds tell numbers apart: where the fifth power is one-to-one modulo `p`.
pub open spec fn rounds_tell_apart(p: int) -> bool {
    forall|x: int, y: int| #[trigger] mix(p, x) == #[trigger] mix(p, y) ==> x % p == y % p
}

proof fn lemma_mix_apart(p: int, s: int, t: int, x: int)
    requires
        p > 0,
        rounds_tell_apart(p),
        s % p != t % p,
    ensures
        mix(p, s + x) % p != mix(p, t + x) % p,
{
    lemma_residue(p, (s + x) * (s + x) * ((s + x) * (s + x)) * (s + x) + 7);
    lemma_residue(p, (t + x) * (t + x) * ((t + x) * (t + x)) * (t + x) + 7);
    if mix(p, s + x) % p == mix(p, t + x) % p {
        assert(mix(p, s + x) == mix(p, t + x));
        lemma_cong_sub(p, s + x, x, t + x, x);
    }
}

proof fn lemma_sponge_apart(
    p: int,
    a: Seq<RoItem<int>>,
    b: Seq<RoItem<int>>,
    k: int,
    x: int,
    y: int,
)
    requires
        p > 0,
        rounds_tell_apart(p),
        a.len() == b.len(),
        0 <= k < a.len(),
        a[k] == RoItem::Absorb(x),
        b[k] == RoItem::Absorb(y),
        x % p != y % p,
        forall|i: int| 0 <= i < a.len() && i != k ==> #[trigger] a[i] == b[i],
    ensures
        sponge(p, a) % p != sponge(p, b) % p,
    decreases a.len(),
{
    let (c, d) = (a.drop_last(), b.drop_last());
    let n = a.len() - 1;
    let (s, t) = (sponge(p, c), sponge(p, d));
    if k == n {
        assert(c =~= d);
        lemma_mix_apart(p, x, y, s);
        assert(x + s == s + x && y + s == s + y);
    } else {
        assert forall|i: int| 0 <= i < c.len() && i != k implies #[trigger] c[i] == d[i] by {
            assert(a[i] == b[i]);
        }
        lemma_sponge_apart(p, c, d, k, x, y);
        assert(a[n] == b[n]);
        match a.last() {
            RoItem::Absorb(z) => {
                lemma_mix_apart(p, s, t, z);
            },
            RoItem::Squeeze(z) => {
                lemma_mix_apart(p, s, t, 3);
                lemma_mix_apart(p, mix(p, s + 3), mix(p, t + 3), z as int);
            },
        }
    }
}

/// Every number that the random oracle of the engine takes in counts: where rounds tell numbers
/// apart, two logs that differ in exactly one number lead to different challenges.
pub proof fn law_oracle_tells_apart<F: PrimeField>(
    a: Seq<RoItem<int>>,
    b: Seq<RoItem<int>>,
    k: int,
    x: int,
    y: int,
    num_bits: usize,
)
    requires
        rounds_tell_apart(F::modulus()),
        a.len() == b.len(),
        0 <= k < a.len(),
        a[k] == RoItem::Absorb(x),
        b[k] == RoItem::Absorb(y),
        x % F::modulus() != y % F::modulus(),
        forall|i: int| 0 <= i < a.len() && i != k ==> #[trigger] a[i] == b[i],
    ensures
        ReferenceEngine::<F>::challenge(a, num_bits) != ReferenceEngine::<F>::challenge(
            b,
            num_bits,
        ),
{
    let p = F::modulus();
    F::lemma_modulus();
    lemma_sponge_apart(p, a, b, k, x, y);
    let (s, t) = (sponge(p, a), sponge(p, b));
    lemma_mix_apart(p, s, t, 5);
    lemma_mix_apart(p, mix(p, s + 5), mix(p, t + 5), num_bits as int);
}

/// The coordinates of elements tell them apart.
pub proof fn law_coordinates_tell_apart<F: PrimeField>(a: Exponent<F>, b: Exponent<F>)
    requires
        Exponent::<F>::coordinates(a.log()) == Exponent::<F>::coordinates(b.log()),
    ensures
        a.v.val() == b.v.val(),
{
    assert(Exponent::<F>::coordinates(a.log())[0] == Exponent::<F>::coordinates(b.log())[0]);
}

} // verus!
