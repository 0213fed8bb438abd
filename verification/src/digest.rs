//! Digests of commitment keys and matrices.

use crate::commitment::{logs, CommitmentKey};
use crate::engine::{Engine, Group, TranscriptEvent};
use crate::field::PrimeField;
use crate::structure::R1CSShape;
use crate::transcript::{
    absorbed, append_bytes, exhausted, fresh, next_challenge, Transcript, TranscriptVal,
};
use vstd::bytes::{spec_u64_to_le_bytes, u64_to_le_bytes};
use vstd::prelude::*;
use vstd::utf8::encode_utf8;

verus! {

/// The bytes of a sequence of group elements, given by their logarithms.
pub open spec fn point_bytes<E: Engine>(v: Seq<int>) -> Seq<u8>
    decreases v.len(),
{
    if v.len() == 0 {
        Seq::empty()
    } else {
        point_bytes::<E>(v.drop_last()) + E::GE::bytes(v.last())
    }
}

/// The bytes of the entries of a matrix.
pub open spec fn matrix_bytes<F: PrimeField>(m: Seq<(usize, usize, F)>) -> Seq<u8>
    decreases m.len(),
{
    if m.len() == 0 {
        Seq::empty()
    } else {
        matrix_bytes(m.drop_last()) + spec_u64_to_le_bytes(m.last().0 as u64)
            + spec_u64_to_le_bytes(m.last().1 as u64) + F::bytes(m.last().2.val())
    }
}

/// The bytes of the dimensions of a system.
pub open spec fn dimension_bytes<E: Engine>(S: R1CSShape<E>) -> Seq<u8> {
    spec_u64_to_le_bytes(S.num_cons as u64) + spec_u64_to_le_bytes(S.num_vars as u64)
        + spec_u64_to_le_bytes(S.num_io as u64)
}

/// The transcript that a digest is drawn from.
pub open spec fn digest_log<E: Engine>(
    label: Seq<char>,
    ck: CommitmentKey<E>,
    S: R1CSShape<E>,
) -> TranscriptVal {
    let t1 = absorbed(fresh(label), "ck"@, point_bytes::<E>(logs::<E>(ck.ck@)));
    let t2 = absorbed(t1, "h"@, E::GE::bytes(ck.h.log()));
    let t3 = absorbed(t2, "dimensions"@, dimension_bytes(S));
    let t4 = absorbed(t3, "A"@, matrix_bytes(S.A@));
    let t5 = absorbed(t4, "B"@, matrix_bytes(S.B@));
    absorbed(t5, "C"@, matrix_bytes(S.C@))
}

/// The digest of a commitment key and of the matrices of a system.
pub open spec fn digest_of<E: Engine>(
    label: Seq<char>,
    ck: CommitmentKey<E>,
    S: R1CSShape<E>,
) -> int {
    next_challenge::<E>(digest_log(label, ck, S), "digest"@)
}

/// The bytes of group elements.
fn points_to_bytes<E: Engine>(v: &Vec<E::GE>) -> (r: Vec<u8>)
    ensures
        r@ == point_bytes::<E>(logs::<E>(v@)),
{
    let ghost all = logs::<E>(v@);
    let n: usize = v.len();
    let mut r: Vec<u8> = Vec::new();
    let mut i: usize = 0;
    assert(all.take(0) =~= Seq::<int>::empty());
    while i < n
        invariant
            i <= n,
            n == v@.len(),
            all == logs::<E>(v@),
            r@ == point_bytes::<E>(all.take(i as int)),
        decreases n - i,
    {
        let b = v[i].to_bytes();
        append_bytes(&mut r, &b);
        proof {
            assert(all.take(i as int + 1).drop_last() =~= all.take(i as int));
        }
        i = i + 1;
    }
    assert(all.take(n as int) =~= all);
    r
}

/// The bytes of the entries of a matrix.
fn matrix_to_bytes<F: PrimeField>(m: &Vec<(usize, usize, F)>) -> (r: Vec<u8>)
    ensures
        r@ == matrix_bytes(m@),
{
    let n: usize = m.len();
    let mut r: Vec<u8> = Vec::new();
    let mut i: usize = 0;
    assert(m@.take(0) =~= Seq::<(usize, usize, F)>::empty());
    while i < n
        invariant
            i <= n,
            n == m@.len(),
            r@ == matrix_bytes(m@.take(i as int)),
        decreases n - i,
    {
        let (a, b, v) = m[i];
        append_bytes(&mut r, &u64_to_le_bytes(a as u64));
        append_bytes(&mut r, &u64_to_le_bytes(b as u64));
        append_bytes(&mut r, &v.to_bytes());
        proof {
            assert(m@.take(i as int + 1).drop_last() =~= m@.take(i as int));
        }
        i = i + 1;
    }
    assert(m@.take(n as int) =~= m@);
    r
}

/// The digest of a commitment key and of the matrices of a system.
pub fn digest<E: Engine>(label: &str, ck: &CommitmentKey<E>, S: &R1CSShape<E>) -> (r: E::Scalar)
    ensures
        r.val() == digest_of(label@, *ck, *S),
{
    let mut t = Transcript::<E>::new(label);
    t.absorb_bytes("ck", points_to_bytes::<E>(&ck.ck));
    t.absorb_point("h", &ck.h);
    let mut d: Vec<u8> = Vec::new();
    append_bytes(&mut d, &u64_to_le_bytes(S.num_cons as u64));
    append_bytes(&mut d, &u64_to_le_bytes(S.num_vars as u64));
    append_bytes(&mut d, &u64_to_le_bytes(S.num_io as u64));
    assert(d@ =~= dimension_bytes(*S));
    t.absorb_bytes("dimensions", d);
    t.absorb_bytes("A", matrix_to_bytes(&S.A));
    t.absorb_bytes("B", matrix_to_bytes(&S.B));
    t.absorb_bytes("C", matrix_to_bytes(&S.C));
    match t.squeeze("digest") {
        Ok(x) => x,
        Err(_) => {
            assert(!exhausted(digest_log(label@, *ck, *S)));
            E::Scalar::zero()
        },
    }
}

/// The bytes of group elements are those of every element, one behind the other.
pub proof fn law_point_bytes_strung<E: Engine>(v: Seq<int>)
    ensures
        point_bytes::<E>(v) == Seq::new(v.len(), |i: int| E::GE::bytes(v[i])).flatten(),
    decreases v.len(),
{
    let s = Seq::new(v.len(), |i: int| E::GE::bytes(v[i]));
    s.lemma_flatten_and_flatten_alt_are_equivalent();
    if v.len() > 0 {
        let t = v.drop_last();
        law_point_bytes_strung::<E>(t);
        let u = Seq::new(t.len(), |i: int| E::GE::bytes(t[i]));
        u.lemma_flatten_and_flatten_alt_are_equivalent();
        assert(s.drop_last() =~= u);
    }
}

/// The bytes of a matrix are, for every entry, its row and its column in eight bytes each, and its
/// value, one entry behind the other.
pub proof fn law_matrix_bytes_strung<F: PrimeField>(m: Seq<(usize, usize, F)>)
    ensures
        matrix_bytes(m) == Seq::new(
            m.len(),
            |i: int|
                spec_u64_to_le_bytes(m[i].0 as u64) + spec_u64_to_le_bytes(m[i].1 as u64)
                    + F::bytes(m[i].2.val()),
        ).flatten(),
    decreases m.len(),
{
    let s = Seq::new(
        m.len(),
        |i: int|
            spec_u64_to_le_bytes(m[i].0 as u64) + spec_u64_to_le_bytes(m[i].1 as u64) + F::bytes(
                m[i].2.val(),
            ),
    );
    s.lemma_flatten_and_flatten_alt_are_equivalent();
    if m.len() > 0 {
        let t = m.drop_last();
        law_matrix_bytes_strung(t);
        let u = Seq::new(
            t.len(),
            |i: int|
                spec_u64_to_le_bytes(t[i].0 as u64) + spec_u64_to_le_bytes(t[i].1 as u64)
                    + F::bytes(t[i].2.val()),
        );
        u.lemma_flatten_and_flatten_alt_are_equivalent();
        assert(s.drop_last() =~= u);
        assert(matrix_bytes(m) =~= matrix_bytes(t) + s.last());
    }
}

/// A digest is the challenge after the label, the generators, the generator for the blinding, the
/// dimensions and the three matrices, in this order.
pub proof fn law_digest_takes_in<E: Engine>(
    label: Seq<char>,
    ck: CommitmentKey<E>,
    S: R1CSShape<E>,
)
    ensures
        digest_of(label, ck, S) == E::transcript_challenge(
            seq![
                TranscriptEvent::Absorb("dom"@, encode_utf8(label)),
                TranscriptEvent::Absorb(
                    "ck"@,
                    Seq::new(
                        ck.ck@.len(),
                        |i: int| E::GE::bytes(ck.ck@[i].log()),
                    ).flatten(),
                ),
                TranscriptEvent::Absorb("h"@, E::GE::bytes(ck.h.log())),
                TranscriptEvent::Absorb(
                    "dimensions"@,
                    spec_u64_to_le_bytes(S.num_cons as u64) + spec_u64_to_le_bytes(
                        S.num_vars as u64,
                    ) + spec_u64_to_le_bytes(S.num_io as u64),
                ),
                TranscriptEvent::Absorb("A"@, matrix_bytes(S.A@)),
                TranscriptEvent::Absorb("B"@, matrix_bytes(S.B@)),
                TranscriptEvent::Absorb("C"@, matrix_bytes(S.C@)),
                TranscriptEvent::Squeeze("digest"@),
            ],
        ),
{
    let v = logs::<E>(ck.ck@);
    law_point_bytes_strung::<E>(v);
    let s = Seq::new(ck.ck@.len(), |i: int| E::GE::bytes(ck.ck@[i].log()));
    assert(Seq::new(v.len(), |i: int| E::GE::bytes(v[i])) =~= s);
    let log = digest_log(label, ck, S).log.push(TranscriptEvent::Squeeze("digest"@));
    assert(log =~= seq![
        TranscriptEvent::Absorb("dom"@, encode_utf8(label)),
        TranscriptEvent::Absorb("ck"@, s.flatten()),
        TranscriptEvent::Absorb("h"@, E::GE::bytes(ck.h.log())),
        TranscriptEvent::Absorb(
            "dimensions"@,
            spec_u64_to_le_bytes(S.num_cons as u64) + spec_u64_to_le_bytes(S.num_vars as u64)
                + spec_u64_to_le_bytes(S.num_io as u64),
        ),
        TranscriptEvent::Absorb("A"@, matrix_bytes(S.A@)),
        TranscriptEvent::Absorb("B"@, matrix_bytes(S.B@)),
        TranscriptEvent::Absorb("C"@, matrix_bytes(S.C@)),
        TranscriptEvent::Squeeze("digest"@),
    ]);
}

} // verus!
