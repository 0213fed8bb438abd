//! What a proof system is built on: a field, a group of the same order, a random oracle and a
//! transcript.

use crate::field::PrimeField;
use crate::frontend::{AllocatedNum, ConstraintSystem, Layout, Valuation};
use vstd::prelude::*;

verus! {

/// How many numbers of the field describe a point: four limbs of each coordinate and the mark
/// of the point at infinity.
pub const POINT_LIMBS: usize = 9;

/// The width of a folding challenge.
pub const NUM_CHALLENGE_BITS: usize = 128;

/// The width of the hash that a step makes public.
pub const NUM_HASH_BITS: usize = 250;

/// The coordinates of the neutral element.
pub open spec fn identity_coordinates() -> Seq<int> {
    seq![0int, 0, 0, 0, 0, 0, 0, 0, 1]
}

/// A group whose order is the characteristic of the field `F`. An element is described by its
/// discrete logarithm `log` to a fixed base.
pub trait Group<F: PrimeField>: Sized + Copy {
    /// The discrete logarithm of an element.
    spec fn log(&self) -> int;

    /// The numbers by which a circuit describes the element with a given logarithm.
    spec fn coordinates(log: int) -> Seq<int>;

    proof fn lemma_coordinates(log: int)
        ensures
            Self::coordinates(log).len() == POINT_LIMBS,
            Self::coordinates(0) == identity_coordinates(),
    ;

    /// The bytes by which a transcript takes in the element with a given logarithm.
    spec fn bytes(log: int) -> Seq<u8>;

    fn identity() -> (r: Self)
        ensures
            r.log() == 0,
    ;

    /// The base of the logarithms.
    fn base() -> (r: Self)
        ensures
            r.log() == 1,
    ;

    fn plus(self, other: Self) -> (r: Self)
        ensures
            r.log() == (self.log() + other.log()) % F::modulus(),
    ;

    fn scale(self, k: F) -> (r: Self)
        ensures
            r.log() == (k.val() * self.log()) % F::modulus(),
    ;

    fn same(self, other: Self) -> (r: bool)
        ensures
            r == (self.log() == other.log()),
    ;

    fn to_coordinates(&self) -> (r: Vec<F>)
        ensures
            r@.len() == POINT_LIMBS,
            forall|i: int|
                0 <= i < POINT_LIMBS ==> (#[trigger] r@[i]).val() == Self::coordinates(self.log())[i],
    ;

    fn to_bytes(&self) -> (r: Vec<u8>)
        ensures
            r@ == Self::bytes(self.log()),
    ;
}

/// One use of a random oracle: a number taken in, or a challenge of some width given out.
#[derive(Clone, Copy, Debug)]
pub enum RoItem<T> {
    /// A number is taken in.
    Absorb(T),
    /// A challenge of the given width is given out.
    Squeeze(usize),
}

/// One use of a transcript, seen as plain data.
pub enum TranscriptEvent {
    /// Bytes are taken in under a label.
    Absorb(Seq<char>, Seq<u8>),
    /// A challenge is given out under a label.
    Squeeze(Seq<char>),
}

/// One use of a transcript.
pub enum TranscriptItem {
    /// Bytes are taken in under a label.
    Absorb(String, Vec<u8>),
    /// A challenge is given out under a label.
    Squeeze(String),
}

impl TranscriptItem {
    pub open spec fn view(&self) -> TranscriptEvent {
        match self {
            TranscriptItem::Absorb(l, d) => TranscriptEvent::Absorb(l@, d@),
            TranscriptItem::Squeeze(l) => TranscriptEvent::Squeeze(l@),
        }
    }
}

/// The uses of a random oracle with their numbers as integers.
pub open spec fn ro_vals<F: PrimeField>(log: Seq<RoItem<F>>) -> Seq<RoItem<int>> {
    Seq::new(
        log.len(),
        |i: int|
            match log[i] {
                RoItem::Absorb(x) => RoItem::Absorb(x.val()),
                RoItem::Squeeze(n) => RoItem::Squeeze(n),
            },
    )
}

/// The uses of a random oracle in a circuit, read under a valuation.
pub open spec fn ro_at<F: PrimeField>(log: Seq<RoItem<AllocatedNum<F>>>, e: Valuation) -> Seq<
    RoItem<int>,
> {
    Seq::new(
        log.len(),
        |i: int|
            match log[i] {
                RoItem::Absorb(x) => RoItem::Absorb(x.at(e)),
                RoItem::Squeeze(n) => RoItem::Squeeze(n),
            },
    )
}

/// The numbers that a random oracle has taken in belong to the system.
pub open spec fn ro_valid<F: PrimeField>(
    cs: ConstraintSystem<F>,
    log: Seq<RoItem<AllocatedNum<F>>>,
) -> bool {
    forall|i: int|
        0 <= i < log.len() ==> match #[trigger] log[i] {
            RoItem::Absorb(x) => cs.valid(x),
            RoItem::Squeeze(_) => true,
        }
}

/// The transcript events of a list of uses.
pub open spec fn events(items: Seq<TranscriptItem>) -> Seq<TranscriptEvent> {
    Seq::new(items.len(), |i: int| items[i]@)
}

/// The parts that a proof system is built on. A challenge of the random oracle or of the
/// transcript is a function of everything that was taken in and given out before it.
pub trait Engine: Sized {
    /// The scalars.
    type Scalar: PrimeField;

    /// The group in which vectors of scalars are committed to.
    type GE: Group<Self::Scalar>;

    /// The challenge that the random oracle gives out after `log`.
    spec fn challenge(log: Seq<RoItem<int>>, num_bits: usize) -> int;

    /// The challenge that a transcript gives out after `log`.
    spec fn transcript_challenge(log: Seq<TranscriptEvent>) -> int;

    /// What a system becomes when the challenge after `log` is computed in it, given the names of
    /// the numbers in `log`.
    spec fn squeeze_layout(l: Layout, log: Seq<RoItem<int>>, num_bits: usize) -> Layout;

    /// The name of the challenge that is computed in a system.
    spec fn squeeze_name(l: Layout, log: Seq<RoItem<int>>, num_bits: usize) -> int;

    /// The challenge of the random oracle.
    fn ro_squeeze(log: &Vec<RoItem<Self::Scalar>>, num_bits: usize) -> (r: Self::Scalar)
        ensures
            r.val() == Self::challenge(ro_vals(log@), num_bits),
    ;

    /// The challenge of the random oracle, computed in a circuit.
    fn ro_squeeze_circuit(
        cs: &mut ConstraintSystem<Self::Scalar>,
        log: &Vec<RoItem<AllocatedNum<Self::Scalar>>>,
        num_bits: usize,
    ) -> (r: AllocatedNum<Self::Scalar>)
        requires
            old(cs).wf(),
            ro_valid(*old(cs), log@),
        ensures
            old(cs).grows(*final(cs)),
            final(cs).valid(r),
            forall|e: Valuation| #[trigger]
                final(cs).admits(e) ==> r.at(e) == Self::challenge(ro_at(log@, e), num_bits),
            old(cs).records() ==> final(cs).satisfied() == old(cs).satisfied(),
            final(cs).layout() == Self::squeeze_layout(
                old(cs).layout(),
                ro_at(log@, Valuation::Names),
                num_bits,
            ),
            r.at(Valuation::Names) == Self::squeeze_name(
                old(cs).layout(),
                ro_at(log@, Valuation::Names),
                num_bits,
            ),
    ;

    /// The challenge of the transcript.
    fn transcript_squeeze(items: &Vec<TranscriptItem>) -> (r: Self::Scalar)
        ensures
            r.val() == Self::transcript_challenge(events(items@)),
    ;
}

/// A random oracle with what it has taken in and given out.
pub struct RO2<E: Engine> {
    log: Vec<RoItem<E::Scalar>>,
}

impl<E: Engine> RO2<E> {
    /// What the oracle has taken in and given out.
    pub closed spec fn view(&self) -> Seq<RoItem<int>> {
        ro_vals(self.log@)
    }

    /// A fresh oracle.
    pub fn new() -> (r: Self)
        ensures
            r@ == Seq::<RoItem<int>>::empty(),
    {
        let r = RO2 { log: Vec::new() };
        proof {
            assert(r@ =~= Seq::<RoItem<int>>::empty());
        }
        r
    }

    /// Takes in a number.
    pub fn absorb(&mut self, x: E::Scalar)
        ensures
            final(self)@ == old(self)@.push(RoItem::Absorb(x.val())),
    {
        self.log.push(RoItem::Absorb(x));
        proof {
            assert(self@ =~= old(self)@.push(RoItem::Absorb(x.val())));
        }
    }

    /// Gives out a challenge.
    pub fn squeeze(&mut self, num_bits: usize) -> (r: E::Scalar)
        ensures
            r.val() == E::challenge(old(self)@, num_bits),
            final(self)@ == old(self)@.push(RoItem::Squeeze(num_bits)),
    {
        let r = E::ro_squeeze(&self.log, num_bits);
        self.log.push(RoItem::Squeeze(num_bits));
        proof {
            assert(self@ =~= old(self)@.push(RoItem::Squeeze(num_bits)));
        }
        r
    }
}

/// A random oracle of a circuit.
pub struct RO2Circuit<E: Engine> {
    log: Vec<RoItem<AllocatedNum<E::Scalar>>>,
}

impl<E: Engine> RO2Circuit<E> {
    /// What the oracle has taken in and given out, read under a valuation.
    pub closed spec fn at(self, e: Valuation) -> Seq<RoItem<int>> {
        ro_at(self.log@, e)
    }

    /// The numbers taken in belong to the system.
    pub closed spec fn valid(self, cs: ConstraintSystem<E::Scalar>) -> bool {
        ro_valid(cs, self.log@)
    }

    /// The numbers taken in stay valid as the system grows.
    pub proof fn lemma_valid_grows(
        self,
        before: ConstraintSystem<E::Scalar>,
        later: ConstraintSystem<E::Scalar>,
    )
        requires
            before.grows(later),
            self.valid(before),
        ensures
            self.valid(later),
    {
        assert forall|i: int| 0 <= i < self.log@.len() implies match #[trigger] self.log@[i] {
            RoItem::Absorb(x) => later.valid(x),
            RoItem::Squeeze(_) => true,
        } by {}
    }

    /// A fresh oracle.
    pub fn new() -> (r: Self)
        ensures
            forall|cs: ConstraintSystem<E::Scalar>| #[trigger] r.valid(cs),
            forall|e: Valuation| #[trigger] r.at(e) == Seq::<RoItem<int>>::empty(),
    {
        let r = RO2Circuit { log: Vec::new() };
        proof {
            assert forall|e: Valuation| #[trigger] r.at(e) == Seq::<RoItem<int>>::empty() by {
                assert(r.at(e) =~= Seq::<RoItem<int>>::empty());
            }
        }
        r
    }

    /// Takes in a number.
    pub fn absorb(&mut self, x: &AllocatedNum<E::Scalar>)
        ensures
            forall|cs: ConstraintSystem<E::Scalar>|
                old(self).valid(cs) && cs.valid(*x) ==> #[trigger] final(self).valid(cs),
            forall|e: Valuation| #[trigger]
                final(self).at(e) == old(self).at(e).push(RoItem::Absorb(x.at(e))),
    {
        self.log.push(RoItem::Absorb(*x));
        proof {
            assert forall|e: Valuation| #[trigger] self.at(e) == old(self).at(e).push(
                RoItem::Absorb(x.at(e)),
            ) by {
                assert(self.at(e) =~= old(self).at(e).push(RoItem::Absorb(x.at(e))));
            }
        }
    }

    /// Gives out a challenge.
    pub fn squeeze(&mut self, cs: &mut ConstraintSystem<E::Scalar>, num_bits: usize) -> (r:
        AllocatedNum<E::Scalar>)
        requires
            old(cs).wf(),
            old(self).valid(*old(cs)),
        ensures
            old(cs).grows(*final(cs)),
            final(cs).valid(r),
            final(self).valid(*final(cs)),
            forall|e: Valuation| #[trigger]
                final(cs).admits(e) ==> r.at(e) == E::challenge(old(self).at(e), num_bits),
            forall|e: Valuation| #[trigger]
                final(self).at(e) == old(self).at(e).push(RoItem::Squeeze(num_bits)),
            old(cs).records() ==> final(cs).satisfied() == old(cs).satisfied(),
            final(cs).layout() == E::squeeze_layout(
                old(cs).layout(),
                old(self).at(Valuation::Names),
                num_bits,
            ),
            r.at(Valuation::Names) == E::squeeze_name(
                old(cs).layout(),
                old(self).at(Valuation::Names),
                num_bits,
            ),
    {
        let r = E::ro_squeeze_circuit(cs, &self.log, num_bits);
        self.log.push(RoItem::Squeeze(num_bits));
        proof {
            assert forall|e: Valuation| #[trigger] self.at(e) == old(self).at(e).push(
                RoItem::Squeeze(num_bits),
            ) by {
                assert(self.at(e) =~= old(self).at(e).push(RoItem::Squeeze(num_bits)));
            }
            old(self).lemma_valid_grows(*old(cs), *cs);
        }
        r
    }
}

} // verus!
