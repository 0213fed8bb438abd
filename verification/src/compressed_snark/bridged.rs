//! The folded instance as an envelope carries it.

use crate::engine::{Engine, Group};
use crate::field::PrimeField;
use crate::poly::vals;
use crate::transcript::{append_bytes, law_scalar_bytes_strung, scalar_bytes, scalars_to_bytes};
use vstd::prelude::*;

verus! {

/// A folded instance with commitments to the two halves of its weights.
pub struct BridgedNeutronInstance<E: Engine> {
    pub comm_W: E::GE,
    pub comm_E1: E::GE,
    pub comm_E2_pcs: E::GE,
    pub u: E::Scalar,
    pub X: Vec<E::Scalar>,
    pub T: E::Scalar,
}

impl<E: Engine> BridgedNeutronInstance<E> {
    /// The bytes by which a transcript takes in the instance: the three commitments, `u` and `X`.
    /// The claim `T` is not among them.
    pub open spec fn transcript_bytes(self) -> Seq<u8> {
        E::GE::bytes(self.comm_W.log()) + E::GE::bytes(self.comm_E1.log()) + E::GE::bytes(
            self.comm_E2_pcs.log(),
        ) + E::Scalar::bytes(self.u.val()) + scalar_bytes::<E::Scalar>(vals(self.X@))
    }

    /// The bytes by which a transcript takes in the instance.
    pub fn to_transcript_bytes(&self) -> (r: Vec<u8>)
        ensures
            r@ == self.transcript_bytes(),
    {
        let mut r = self.comm_W.to_bytes();
        append_bytes(&mut r, &self.comm_E1.to_bytes());
        append_bytes(&mut r, &self.comm_E2_pcs.to_bytes());
        append_bytes(&mut r, &self.u.to_bytes());
        append_bytes(&mut r, &scalars_to_bytes(&self.X));
        r
    }

    /// The bytes are those of the commitments to the witness, to the first half and to the second
    /// half of the weights, of the scalar and of every public value, one behind the other.
    pub proof fn law_bytes_strung(self)
        ensures
            self.transcript_bytes() == seq![
                E::GE::bytes(self.comm_W.log()),
                E::GE::bytes(self.comm_E1.log()),
                E::GE::bytes(self.comm_E2_pcs.log()),
                E::Scalar::bytes(self.u.val()),
                Seq::new(self.X@.len(), |i: int| E::Scalar::bytes(self.X@[i].val())).flatten(),
            ].flatten(),
    {
        let v = vals(self.X@);
        law_scalar_bytes_strung::<E::Scalar>(v);
        let x = Seq::new(self.X@.len(), |i: int| E::Scalar::bytes(self.X@[i].val()));
        assert(Seq::new(v.len(), |i: int| E::Scalar::bytes(v[i])) =~= x);
        let s = seq![
            E::GE::bytes(self.comm_W.log()),
            E::GE::bytes(self.comm_E1.log()),
            E::GE::bytes(self.comm_E2_pcs.log()),
            E::Scalar::bytes(self.u.val()),
            x.flatten(),
        ];
        reveal_with_fuel(Seq::<_>::flatten, 6);
        assert(s.flatten() =~= s[0] + (s[1] + (s[2] + (s[3] + s[4])))) by {
            let s1 = s.drop_first();
            let s2 = s1.drop_first();
            let s3 = s2.drop_first();
            let s4 = s3.drop_first();
            assert(s4.drop_first() =~= Seq::empty());
            assert(s4.flatten() =~= s[4]);
            assert(s3.flatten() =~= s[3] + s[4]);
            assert(s2.flatten() =~= s[2] + (s[3] + s[4]));
            assert(s1.flatten() =~= s[1] + (s[2] + (s[3] + s[4])));
        }
        assert(self.transcript_bytes() =~= s[0] + (s[1] + (s[2] + (s[3] + s[4]))));
    }

    /// The claim is no part of these bytes: it enters a transcript on its own.
    pub proof fn law_claim_stays_out(self, T: E::Scalar)
        ensures
            (BridgedNeutronInstance { T, ..self }).transcript_bytes() == self.transcript_bytes(),
    {
    }
}

} // verus!
