//! The transcript between a prover and a verifier.

use crate::engine::{events, Engine, Group, TranscriptEvent, TranscriptItem};
use crate::errors::NovaError;
use crate::field::PrimeField;
use crate::poly::vals;
use vstd::prelude::*;
use vstd::utf8::encode_utf8;

verus! {

/// The bytes of a sequence of scalars, one after the other.
pub open spec fn scalar_bytes<F: PrimeField>(v: Seq<int>) -> Seq<u8>
    decreases v.len(),
{
    if v.len() == 0 {
        Seq::empty()
    } else {
        scalar_bytes::<F>(v.drop_last()) + F::bytes(v.last())
    }
}

/// Writes bytes at the end of others.
pub fn append_bytes(out: &mut Vec<u8>, bytes: &[u8])
    ensures
        final(out)@ == old(out)@ + bytes@,
{
    let n: usize = bytes.len();
    let mut i: usize = 0;
    assert(out@ =~= old(out)@ + bytes@.take(0));
    while i < n
        invariant
            i <= n,
            n == bytes@.len(),
            out@ == old(out)@ + bytes@.take(i as int),
        decreases n - i,
    {
        out.push(bytes[i]);
        assert(out@ =~= old(out)@ + bytes@.take(i as int + 1));
        i = i + 1;
    }
    assert(bytes@.take(n as int) =~= bytes@);
}

/// The bytes of a vector of scalars.
pub fn scalars_to_bytes<F: PrimeField>(v: &[F]) -> (r: Vec<u8>)
    ensures
        r@ == scalar_bytes::<F>(vals(v@)),
{
    let ghost all = vals(v@);
    let n: usize = v.len();
    let mut r: Vec<u8> = Vec::new();
    let mut i: usize = 0;
    assert(all.take(0) =~= Seq::<int>::empty());
    while i < n
        invariant
            i <= n,
            n == v@.len(),
            all == vals(v@),
            r@ == scalar_bytes::<F>(all.take(i as int)),
        decreases n - i,
    {
        let b = v[i].to_bytes();
        append_bytes(&mut r, &b);
        proof {
            assert(all.take(i as int + 1).drop_last() =~= all.take(i as int));
        }
        i = i + 1;
    }
    assert(all.take(n as int) =~= all);
    r
}

/// The most challenges that a transcript gives out.
pub const MAX_ROUNDS: u16 = 65535;

/// A transcript: what was taken in and given out under labels.
pub struct Transcript<E: Engine> {
    items: Vec<TranscriptItem>,
    round: u16,
    _p: std::marker::PhantomData<E>,
}

/// A transcript as plain data.
pub struct TranscriptVal {
    /// What was taken in and given out.
    pub log: Seq<TranscriptEvent>,
    /// How many challenges were given out.
    pub rounds: int,
}

/// A transcript that takes in bytes.
pub open spec fn absorbed(t: TranscriptVal, label: Seq<char>, bytes: Seq<u8>) -> TranscriptVal {
    TranscriptVal { log: t.log.push(TranscriptEvent::Absorb(label, bytes)), rounds: t.rounds }
}

/// A transcript that gives out a challenge.
pub open spec fn squeezed(t: TranscriptVal, label: Seq<char>) -> TranscriptVal {
    TranscriptVal { log: t.log.push(TranscriptEvent::Squeeze(label)), rounds: t.rounds + 1 }
}

/// A fresh transcript of a protocol.
pub open spec fn fresh(label: Seq<char>) -> TranscriptVal {
    TranscriptVal {
        log: seq![TranscriptEvent::Absorb("dom"@, encode_utf8(label))],
        rounds: 0,
    }
}

/// The transcript has given out all its challenges.
pub open spec fn exhausted(t: TranscriptVal) -> bool {
    t.rounds == MAX_ROUNDS
}

/// The challenge that a transcript gives out under a label.
pub open spec fn next_challenge<E: Engine>(t: TranscriptVal, label: Seq<char>) -> int {
    E::transcript_challenge(t.log.push(TranscriptEvent::Squeeze(label)))
}

impl<E: Engine> Transcript<E> {
    /// The transcript as plain data.
    pub closed spec fn view(&self) -> TranscriptVal {
        TranscriptVal { log: events(self.items@), rounds: self.round as int }
    }

    /// A fresh transcript of a protocol.
    pub fn new(label: &str) -> (r: Self)
        ensures
            r@ == fresh(label@),
    {
        let mut items: Vec<TranscriptItem> = Vec::new();
        let mut bytes: Vec<u8> = Vec::new();
        append_bytes(&mut bytes, label.as_bytes());
        items.push(TranscriptItem::Absorb("dom".to_owned(), bytes));
        let r = Transcript { items, round: 0, _p: std::marker::PhantomData };
        proof {
            assert(bytes@ =~= encode_utf8(label@));
            assert(events(items@) =~= fresh(label@).log);
        }
        r
    }

    /// Takes in bytes under a label.
    pub fn absorb_bytes(&mut self, label: &str, bytes: Vec<u8>)
        ensures
            final(self)@ == absorbed(old(self)@, label@, bytes@),
    {
        let ghost b = bytes@;
        self.items.push(TranscriptItem::Absorb(label.to_owned(), bytes));
        proof {
            assert(events(self.items@) =~= absorbed(old(self)@, label@, b).log);
        }
    }

    /// Takes in a group element under a label.
    pub fn absorb_point(&mut self, label: &str, g: &E::GE)
        ensures
            final(self)@ == absorbed(old(self)@, label@, E::GE::bytes(g.log())),
    {
        self.absorb_bytes(label, g.to_bytes());
    }

    /// Takes in a scalar under a label.
    pub fn absorb_scalar(&mut self, label: &str, x: &E::Scalar)
        ensures
            final(self)@ == absorbed(old(self)@, label@, E::Scalar::bytes(x.val())),
    {
        self.absorb_bytes(label, x.to_bytes());
    }

    /// Takes in scalars under a label.
    pub fn absorb_scalars(&mut self, label: &str, v: &[E::Scalar])
        ensures
            final(self)@ == absorbed(old(self)@, label@, scalar_bytes::<E::Scalar>(vals(v@))),
    {
        self.absorb_bytes(label, scalars_to_bytes(v));
    }

    /// Gives out a challenge under a label; an error once all challenges are given out.
    pub fn squeeze(&mut self, label: &str) -> (r: Result<E::Scalar, NovaError>)
        ensures
            r is Err <==> exhausted(old(self)@),
            r is Err ==> r == Err::<E::Scalar, NovaError>(NovaError::InternalTranscriptError)
                && final(self)@ == old(self)@,
            r is Ok ==> final(self)@ == squeezed(old(self)@, label@) && r->Ok_0.val()
                == next_challenge::<E>(old(self)@, label@),
    {
        if self.round == MAX_ROUNDS {
            return Err(NovaError::InternalTranscriptError);
        }
        self.round = self.round + 1;
        self.items.push(TranscriptItem::Squeeze(label.to_owned()));
        proof {
            assert(events(self.items@) =~= squeezed(old(self)@, label@).log);
        }
        Ok(E::transcript_squeeze(&self.items))
    }
}

/// The bytes of a sequence of scalars are those of every scalar, one behind the other.
pub proof fn law_scalar_bytes_strung<F: PrimeField>(v: Seq<int>)
    ensures
        scalar_bytes::<F>(v) == Seq::new(v.len(), |i: int| F::bytes(v[i])).flatten(),
    decreases v.len(),
{
    let s = Seq::new(v.len(), |i: int| F::bytes(v[i]));
    s.lemma_flatten_and_flatten_alt_are_equivalent();
    if v.len() > 0 {
        let t = v.drop_last();
        law_scalar_bytes_strung::<F>(t);
        let u = Seq::new(t.len(), |i: int| F::bytes(t[i]));
        u.lemma_flatten_and_flatten_alt_are_equivalent();
        assert(s.drop_last() =~= u);
    }
}

} // verus!
