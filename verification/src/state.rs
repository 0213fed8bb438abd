//! The state that a step hands on, hashed outside of a circuit.

use crate::circuit::{state_hash, state_inputs};
use crate::engine::{Engine, NUM_HASH_BITS, RO2};
use crate::field::PrimeField;
use crate::point::{absorbs, lemma_absorbs_add};
use crate::poly::vals;
use crate::relation::{absorb_scalars, folded_inputs, FoldedInstance};
use vstd::prelude::*;

verus! {

/// The hash of a state, as a step makes it public.
pub fn hash_of_state<E: Engine>(
    pp_digest: E::Scalar,
    i: E::Scalar,
    z0: &Vec<E::Scalar>,
    zi: &Vec<E::Scalar>,
    U: &FoldedInstance<E>,
    r: E::Scalar,
) -> (h: E::Scalar)
    ensures
        h.val() == state_hash::<E>(
            pp_digest.val(),
            i.val(),
            vals(z0@),
            vals(zi@),
            U@,
            r.val(),
        ),
{
    let mut ro = RO2::<E>::new();
    ro.absorb(pp_digest);
    ro.absorb(i);
    absorb_scalars(&mut ro, z0);
    absorb_scalars(&mut ro, zi);
    U.absorb_in_ro2(&mut ro);
    ro.absorb(r);
    proof {
        let a = seq![pp_digest.val(), i.val()];
        let b = vals(z0@);
        let c = vals(zi@);
        let d = folded_inputs(U@);
        let e = seq![r.val()];
        lemma_absorbs_add(a, b);
        lemma_absorbs_add(a + b, c);
        lemma_absorbs_add(a + b + c, d);
        lemma_absorbs_add(a + b + c + d, e);
        assert(ro@ =~= absorbs(a) + absorbs(b) + absorbs(c) + absorbs(d) + absorbs(e));
        assert(a + b + c + d + e == state_inputs(a[0], a[1], b, c, U@, e[0]));
    }
    ro.squeeze(NUM_HASH_BITS)
}

/// Whether two slices hold the same values.
pub fn same_scalars<F: PrimeField>(a: &[F], b: &[F]) -> (r: bool)
    ensures
        r == (vals(a@) == vals(b@)),
{
    let n: usize = a.len();
    proof {
        assert(vals(a@).len() == a@.len());
        assert(vals(b@).len() == b@.len());
    }
    if b.len() != n {
        return false;
    }
    let mut i: usize = 0;
    while i < n
        invariant
            i <= n,
            n == a@.len(),
            n == b@.len(),
            forall|k: int| 0 <= k < i ==> #[trigger] vals(a@)[k] == vals(b@)[k],
        decreases n - i,
    {
        if !a[i].same(b[i]) {
            assert(vals(a@)[i as int] != vals(b@)[i as int]);
            return false;
        }
        i = i + 1;
    }
    assert(vals(a@) =~= vals(b@));
    true
}

} // verus!
