//! The registry of the digests that the public parameters may have, position by position.

use crate::engine::Engine;
use crate::field::{lemma_reduced, PrimeField};
use crate::frontend::{
    less, once, unit, AllocatedNum, ConstraintSystem, Layout, LinearCombination, Valuation,
    Variable,
};
use crate::gadgets::{lay_constant, lay_equals, lay_product, 
    alloc_constant, alloc_num_equals, alloc_one, enforce_equal, nums_at, nums_valid, product,
};
use vstd::arithmetic::power2::{lemma2_to64, lemma_pow2_strictly_increases, lemma_pow2_unfold, pow2};
use vstd::prelude::*;

verus! {

/// The digest stands in the registry at the position that the index names, and the position can
/// be written with the given number of bits.
pub open spec fn registered(
    p: int,
    digest: int,
    index: int,
    registry: Seq<int>,
    n_bits: nat,
) -> bool {
    exists|j: int|
        0 <= j < registry.len() && j < pow2(n_bits) && index == j % p && #[trigger] registry[j]
            == digest
}

/// Where the field tells all positions apart, a registered digest is the entry at the index.
pub proof fn law_registered_at_index(
    p: int,
    digest: int,
    index: int,
    registry: Seq<int>,
    n_bits: nat,
)
    requires
        registry.len() <= p,
    ensures
        registered(p, digest, index, registry, n_bits) <==> {
            &&& 0 <= index < registry.len()
            &&& index < pow2(n_bits)
            &&& registry[index] == digest
        },
{
    if registered(p, digest, index, registry, n_bits) {
        let j = choose|j: int|
            0 <= j < registry.len() && j < pow2(n_bits) && index == j % p && #[trigger] registry[j]
                == digest;
        lemma_reduced(p, j);
    } else if 0 <= index < registry.len() && index < pow2(n_bits) && registry[index] == digest {
        lemma_reduced(p, index);
        assert(registry[index] == digest);
    }
}

/// How many positions of a registry can be written with the given number of bits.
fn positions(len: usize, n_bits: usize) -> (r: usize)
    ensures
        r <= len,
        r <= pow2(n_bits as nat),
        r == len || r == pow2(n_bits as nat),
{
    let mut limit: usize = 1;
    let mut b: usize = 0;
    proof {
        lemma2_to64();
    }
    while b < n_bits && limit < len
        invariant
            b <= n_bits,
            limit < len ==> limit == pow2(b as nat),
            limit >= len ==> pow2(b as nat) >= len,
        decreases n_bits - b,
    {
        proof {
            lemma_pow2_unfold((b + 1) as nat);
        }
        if limit > len - limit {
            limit = len;
        } else {
            limit = limit + limit;
        }
        b = b + 1;
    }
    if limit < len {
        limit
    } else {
        proof {
            if b < n_bits {
                lemma_pow2_strictly_increases(b as nat, n_bits as nat);
            }
        }
        len
    }
}

/// How many positions of a registry an index of `n_bits` bits can name.
pub open spec fn named_positions(len: nat, n_bits: nat) -> nat {
    if len <= pow2(n_bits) {
        len
    } else {
        pow2(n_bits)
    }
}

/// What a system becomes when the first `n` positions of a registry are searched, and the name of
/// the number that says whether the digest was missed at all of them.
pub open spec fn lay_missed(
    p: int,
    l: Layout,
    digest: int,
    index: int,
    registry: Seq<int>,
    n: nat,
) -> (Layout, int)
    decreases n,
{
    if n == 0 {
        (lay_product(l, once(unit()), once(unit())), l.aux as int)
    } else {
        let (l0, missed) = lay_missed(p, l, digest, index, registry, (n - 1) as nat);
        let l1 = lay_constant(l0, (n - 1) % p);
        let l2 = lay_equals(p, l1, index, l0.aux as int);
        let l3 = lay_equals(p, l2, registry[n - 1], digest);
        let l4 = lay_product(l3, once(l1.aux as int), once(l2.aux as int));
        let l5 = lay_product(l4, once(missed), less(p, unit(), l3.aux as int));
        (l5, l4.aux as int)
    }
}

/// What a system becomes when the digest is demanded to stand in the registry.
pub open spec fn lay_registered(
    p: int,
    l: Layout,
    digest: int,
    index: int,
    registry: Seq<int>,
    n_bits: nat,
) -> Layout {
    let n = named_positions(registry.len(), n_bits);
    let (l0, missed) = lay_missed(p, l, digest, index, registry, n);
    l0.row(once(missed), once(unit()), Seq::empty())
}

/// Demands that the digest of the public parameters stands in the registry at the position that
/// the index names.
pub fn assert_pp_digest_matches_registry<E: Engine>(
    cs: &mut ConstraintSystem<E::Scalar>,
    pp_digest: &AllocatedNum<E::Scalar>,
    index: &AllocatedNum<E::Scalar>,
    registry: &Vec<AllocatedNum<E::Scalar>>,
    n_bits: usize,
)
    requires
        old(cs).wf(),
        old(cs).valid(*pp_digest),
        old(cs).valid(*index),
        nums_valid(*old(cs), registry@),
    ensures
        old(cs).grows(*final(cs)),
        forall|w: spec_fn(Variable) -> int| #[trigger]
            final(cs).met_by(w) ==> registered(
                E::Scalar::modulus(),
                pp_digest.at(Valuation::Assigned(w)),
                index.at(Valuation::Assigned(w)),
                nums_at(registry@, Valuation::Assigned(w)),
                n_bits as nat,
            ),
        old(cs).records() ==> (final(cs).satisfied() <==> old(cs).satisfied() && registered(
            E::Scalar::modulus(),
            pp_digest.at(Valuation::Recorded),
            index.at(Valuation::Recorded),
            nums_at(registry@, Valuation::Recorded),
            n_bits as nat,
        )),
        final(cs).layout() == lay_registered(
            E::Scalar::modulus(),
            old(cs).layout(),
            pp_digest.at(Valuation::Names),
            index.at(Valuation::Names),
            nums_at(registry@, Valuation::Names),
            n_bits as nat,
        ),
{
    let ghost p = E::Scalar::modulus();
    let ghost before = *cs;
    proof {
        E::Scalar::lemma_modulus();
        lemma_reduced(p, 0);
        lemma_reduced(p, 1);
    }
    let n: usize = positions(registry.len(), n_bits);
    let mut missed = alloc_one(cs);
    let mut i: usize = 0;
    while i < n
        invariant
            i <= n,
            n <= registry@.len(),
            p == E::Scalar::modulus(),
            before.wf(),
            before.grows(*cs),
            before.valid(*pp_digest),
            before.valid(*index),
            nums_valid(before, registry@),
            cs.valid(missed),
            0int % p == 0,
            1int % p == 1,
            forall|e: Valuation| #[trigger]
                cs.admits(e) ==> missed.at(e) == if exists|j: int|
                    0 <= j < i && index.at(e) == j % p && #[trigger] registry@[j].at(e)
                        == pp_digest.at(e) {
                    0int
                } else {
                    1int
                },
            before.records() ==> cs.satisfied() == before.satisfied(),
            (cs.layout(), missed.at(Valuation::Names)) == lay_missed(
                p,
                before.layout(),
                pp_digest.at(Valuation::Names),
                index.at(Valuation::Names),
                nums_at(registry@, Valuation::Names),
                i as nat,
            ),
        decreases n - i,
    {
        let ghost s0 = *cs;
        let ghost missed0 = missed;
        let j = alloc_constant(cs, E::Scalar::from_u64(i as u64));
        let ghost s1 = *cs;
        let here = alloc_num_equals(cs, index, &j);
        let ghost s2 = *cs;
        let same = alloc_num_equals(cs, &registry[i], pp_digest);
        let ghost s3 = *cs;
        let a = LinearCombination::of(&here.num);
        let b = LinearCombination::of(&same.num);
        let both = product(cs, a, b);
        let ghost s4 = *cs;
        let one = ConstraintSystem::one();
        let c = LinearCombination::of(&missed);
        let d = LinearCombination::diff(&one, &both);
        missed = product(cs, c, d);
        proof {
            assert forall|e: Valuation| #[trigger] cs.admits(e) implies missed.at(e)
                == if exists|j: int|
                0 <= j < i + 1 && index.at(e) == j % p && #[trigger] registry@[j].at(e)
                    == pp_digest.at(e) {
                0int
            } else {
                1int
            } by {
                assert(s4.admits(e));
                assert(s3.admits(e));
                assert(s2.admits(e));
                assert(s1.admits(e));
                assert(s0.admits(e));
                assert(one.at(e) == 1);
                assert(a.at(e) == here.num.at(e));
                assert(b.at(e) == same.num.at(e));
                assert(c.at(e) == missed0.at(e));
                assert(d.at(e) == (1 - both.at(e)) % p);
                assert(j.at(e) == (i as int) % p);
                let hit = index.at(e) == (i as int) % p && registry@[i as int].at(e)
                    == pp_digest.at(e);
                assert(both.at(e) == if hit {
                    1int
                } else {
                    0int
                });
                assert(d.at(e) == if hit {
                    0int
                } else {
                    1int
                });
            }
        }
        i = i + 1;
    }
    let ghost s5 = *cs;
    let a = LinearCombination::of(&missed);
    let z = LinearCombination::zero();
    enforce_equal(cs, a, z);
    proof {
        assert forall|e: Valuation| #[trigger] s5.admits(e) implies ((a.at(e) == z.at(e))
            == registered(
            p,
            pp_digest.at(e),
            index.at(e),
            nums_at(registry@, e),
            n_bits as nat,
        )) by {
            let reg = nums_at(registry@, e);
            assert(a.at(e) == missed.at(e));
            assert(z.at(e) == 0);
            if missed.at(e) == 0 {
                let j = choose|j: int|
                    0 <= j < n && index.at(e) == j % p && #[trigger] registry@[j].at(e)
                        == pp_digest.at(e);
                assert(reg[j] == pp_digest.at(e));
            }
            if registered(p, pp_digest.at(e), index.at(e), reg, n_bits as nat) {
                let j = choose|j: int|
                    0 <= j < reg.len() && j < pow2(n_bits as nat) && index.at(e) == j % p
                        && #[trigger] reg[j] == pp_digest.at(e);
                assert(registry@[j].at(e) == pp_digest.at(e));
            }
        }
        assert forall|w: spec_fn(Variable) -> int| #[trigger] cs.met_by(w) implies registered(
            p,
            pp_digest.at(Valuation::Assigned(w)),
            index.at(Valuation::Assigned(w)),
            nums_at(registry@, Valuation::Assigned(w)),
            n_bits as nat,
        ) by {
            assert(s5.met_by(w));
            assert(s5.admits(Valuation::Assigned(w)));
        }
        if before.records() {
            assert(s5.admits(Valuation::Recorded));
        }
    }
}

} // verus!
