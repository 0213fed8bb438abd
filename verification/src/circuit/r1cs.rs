//! An instance of the step circuit inside a circuit.

use crate::engine::{Engine, Group, RO2Circuit, POINT_LIMBS};
use crate::field::PrimeField;
use crate::frontend::{fresh, AllocatedNum, ConstraintSystem, Valuation};
use crate::point::{absorbs, point_coordinates, AllocatedNonnativePoint};
use crate::relation::{R1CSInstance, R1CSVal};
use vstd::prelude::*;

verus! {

/// An instance of the step circuit: the commitment to its witness and its one public value.
pub struct AllocatedNonnativeR1CSInstance<E: Engine> {
    pub comm_W: AllocatedNonnativePoint<E>,
    pub X: AllocatedNum<E::Scalar>,
}

/// The numbers by which a random oracle takes in an instance of the step circuit.
pub open spec fn r1cs_inputs(v: R1CSVal) -> Seq<int> {
    v.comm_W + seq![v.X]
}

/// The instance as plain integers; where none is given, the neutral commitment and zero.
pub open spec fn r1cs_val<E: Engine>(inst: Option<&R1CSInstance<E>>) -> R1CSVal {
    match inst {
        Some(u) => R1CSVal {
            comm_W: E::GE::coordinates(u.comm_W.log()),
            X: u.X@[0].val(),
        },
        None => R1CSVal { comm_W: point_coordinates::<E>(None), X: 0 },
    }
}

/// The names of an instance whose numbers are added one after the other.
pub open spec fn fresh_r1cs(start: nat) -> R1CSVal {
    R1CSVal { comm_W: fresh(start, POINT_LIMBS as nat), X: start + POINT_LIMBS }
}

impl<E: Engine> AllocatedNonnativeR1CSInstance<E> {
    /// The instance under a valuation.
    pub open spec fn at(self, e: Valuation) -> R1CSVal {
        R1CSVal { comm_W: self.comm_W.at(e), X: self.X.at(e) }
    }

    /// The numbers of the instance belong to the system.
    pub open spec fn valid(self, cs: ConstraintSystem<E::Scalar>) -> bool {
        self.comm_W.valid(cs) && cs.valid(self.X)
    }

    /// Adds an instance.
    pub fn allocate(
        cs: &mut ConstraintSystem<E::Scalar>,
        inst: Option<&R1CSInstance<E>>,
    ) -> (r: Self)
        requires
            old(cs).wf(),
            inst is Some ==> inst->Some_0.X@.len() == 1,
        ensures
            old(cs).grows(*final(cs)),
            r.valid(*final(cs)),
            forall|e: Valuation| #[trigger] final(cs).admits(e) == old(cs).admits(e),
            final(cs).satisfied() == old(cs).satisfied(),
            old(cs).records() ==> r.at(Valuation::Recorded) == r1cs_val(inst),
            final(cs).layout() == old(cs).layout().more((POINT_LIMBS + 1) as nat),
            r.at(Valuation::Names) == fresh_r1cs(old(cs).layout().aux),
    {
        let point = match inst {
            Some(u) => Some(&u.comm_W),
            None => None,
        };
        let x = match inst {
            Some(u) => u.X[0],
            None => E::Scalar::zero(),
        };
        let comm_W = AllocatedNonnativePoint::allocate(cs, point);
        let X = AllocatedNum::alloc_value(cs, x);
        AllocatedNonnativeR1CSInstance { comm_W, X }
    }

    /// Takes in the instance.
    pub fn absorb_in_ro(&self, ro: &mut RO2Circuit<E>)
        ensures
            forall|cs: ConstraintSystem<E::Scalar>|
                old(ro).valid(cs) && self.valid(cs) ==> #[trigger] final(ro).valid(cs),
            forall|e: Valuation| #[trigger]
                final(ro).at(e) == old(ro).at(e) + absorbs(r1cs_inputs(self.at(e))),
    {
        self.comm_W.absorb_in_ro(ro);
        let ghost middle = *ro;
        ro.absorb(&self.X);
        proof {
            assert forall|e: Valuation| #[trigger] ro.at(e) == old(ro).at(e) + absorbs(
                r1cs_inputs(self.at(e)),
            ) by {
                assert(middle.at(e) == old(ro).at(e) + absorbs(self.comm_W.at(e)));
                assert(ro.at(e) =~= old(ro).at(e) + absorbs(r1cs_inputs(self.at(e))));
            }
            assert forall|cs: ConstraintSystem<E::Scalar>| old(ro).valid(cs) && self.valid(
                cs,
            ) implies #[trigger] ro.valid(cs) by {
                assert(middle.valid(cs));
            }
        }
    }
}

} // verus!
