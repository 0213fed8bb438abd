//! Folded instances and witnesses, and the data that lookups add to them.

use crate::commitment::{copy_points, copy_scalars};
use crate::engine::{identity_coordinates, Engine, Group, RoItem, RO2};
use crate::field::PrimeField;
use crate::point::{absorb_point, absorbs, lemma_absorbs_add};
use crate::poly::{vals, UniPoly};
use vstd::prelude::*;

verus! {

/// The elements of a sequence of sequences, one after the other.
pub open spec fn concat_all(s: Seq<Seq<int>>) -> Seq<int>
    decreases s.len(),
{
    if s.len() == 0 {
        Seq::empty()
    } else {
        concat_all(s.drop_last()) + s.last()
    }
}

/// A sequence that may be missing, as one that may be empty.
pub open spec fn or_empty<T>(s: Option<Seq<T>>) -> Seq<T> {
    match s {
        Some(x) => x,
        None => Seq::empty(),
    }
}

/// A folded instance as plain integers: commitments by their coordinates, scalars by their
/// representatives.
pub struct FoldedVal {
    pub comm_W: Seq<int>,
    pub comm_E: Seq<int>,
    pub T: int,
    pub T_lookup: Option<Seq<int>>,
    pub comm_L: Option<Seq<Seq<int>>>,
    pub comm_ts: Option<Seq<Seq<int>>>,
    pub u: int,
    pub X: Seq<int>,
}

/// The numbers by which a random oracle takes in a folded instance, in their order.
pub open spec fn folded_inputs(v: FoldedVal) -> Seq<int> {
    v.comm_W + v.comm_E + seq![v.T] + or_empty(v.T_lookup) + concat_all(or_empty(v.comm_L))
        + concat_all(or_empty(v.comm_ts)) + seq![v.u] + v.X
}

/// The folded instance that a chain of folds starts from, with `num_io` public values. With
/// `Some(k)` it carries the running data of `k` tables.
pub open spec fn default_folded(num_io: nat, tables: Option<nat>) -> FoldedVal {
    FoldedVal {
        comm_W: identity_coordinates(),
        comm_E: identity_coordinates(),
        T: 0,
        T_lookup: match tables {
            Some(k) => Some(Seq::new(k, |i: int| 0int)),
            None => None,
        },
        comm_L: match tables {
            Some(k) => Some(Seq::new(k, |i: int| identity_coordinates())),
            None => None,
        },
        comm_ts: match tables {
            Some(k) => Some(Seq::new(k, |i: int| identity_coordinates())),
            None => None,
        },
        u: 0,
        X: Seq::new(num_io, |i: int| 0int),
    }
}

/// The coordinates of a sequence of group elements.
pub open spec fn coords<E: Engine>(s: Seq<E::GE>) -> Seq<Seq<int>> {
    Seq::new(s.len(), |i: int| E::GE::coordinates(s[i].log()))
}

/// The coordinates of the group elements of a vector that may be missing.
pub open spec fn opt_coords<E: Engine>(v: Option<Vec<E::GE>>) -> Option<Seq<Seq<int>>> {
    match v {
        Some(x) => Some(coords::<E>(x@)),
        None => None,
    }
}

/// The representatives of the scalars of a vector that may be missing.
pub open spec fn opt_vals<F: PrimeField>(v: Option<Vec<F>>) -> Option<Seq<int>> {
    match v {
        Some(x) => Some(vals(x@)),
        None => None,
    }
}

/// The instance that a chain of folds has arrived at.
pub struct FoldedInstance<E: Engine> {
    pub comm_W: E::GE,
    pub comm_E: E::GE,
    pub T: E::Scalar,
    pub u: E::Scalar,
    pub X: Vec<E::Scalar>,
    pub comm_L: Option<Vec<E::GE>>,
    pub comm_ts: Option<Vec<E::GE>>,
    pub comm_inv_w: Option<Vec<E::GE>>,
    pub comm_inv_t: Option<Vec<E::GE>>,
    pub T_lookup: Option<Vec<E::Scalar>>,
}

/// Two sequences of sequences have the same lengths throughout.
pub open spec fn alike(s: Seq<Seq<int>>, t: Seq<Seq<int>>) -> bool {
    &&& s.len() == t.len()
    &&& forall|i: int| 0 <= i < s.len() ==> (#[trigger] s[i]).len() == t[i].len()
}

/// Two folded instances have the same layout.
pub open spec fn same_layout(v: FoldedVal, w: FoldedVal) -> bool {
    &&& v.comm_W.len() == w.comm_W.len()
    &&& v.comm_E.len() == w.comm_E.len()
    &&& v.T_lookup is Some <==> w.T_lookup is Some
    &&& or_empty(v.T_lookup).len() == or_empty(w.T_lookup).len()
    &&& v.comm_L is Some <==> w.comm_L is Some
    &&& alike(or_empty(v.comm_L), or_empty(w.comm_L))
    &&& v.comm_ts is Some <==> w.comm_ts is Some
    &&& alike(or_empty(v.comm_ts), or_empty(w.comm_ts))
    &&& v.X.len() == w.X.len()
}

/// Beginnings of equal length of equal sequences are equal, and so is what follows them.
pub proof fn lemma_beginnings<T>(a: Seq<T>, b: Seq<T>, c: Seq<T>, d: Seq<T>)
    requires
        a + b == c + d,
        a.len() == c.len(),
    ensures
        a == c,
        b == d,
{
    assert((a + b).take(a.len() as int) =~= a);
    assert((c + d).take(c.len() as int) =~= c);
    assert((a + b).skip(a.len() as int) =~= b);
    assert((c + d).skip(c.len() as int) =~= d);
}

/// Sequences of the same lengths have the same total length.
pub proof fn lemma_alike_len(s: Seq<Seq<int>>, t: Seq<Seq<int>>)
    requires
        alike(s, t),
    ensures
        concat_all(s).len() == concat_all(t).len(),
    decreases s.len(),
{
    if s.len() > 0 {
        let n = s.len() - 1;
        assert(s[n].len() == t[n].len());
        assert forall|i: int| 0 <= i < n implies (#[trigger] s.drop_last()[i]).len()
            == t.drop_last()[i].len() by {
            assert(s[i].len() == t[i].len());
        }
        lemma_alike_len(s.drop_last(), t.drop_last());
    }
}

/// What is strung together can be taken apart again.
pub proof fn lemma_strung_apart(s: Seq<Seq<int>>, t: Seq<Seq<int>>)
    requires
        alike(s, t),
        concat_all(s) == concat_all(t),
    ensures
        s == t,
    decreases s.len(),
{
    if s.len() > 0 {
        let n = s.len() - 1;
        assert(s[n].len() == t[n].len());
        assert forall|i: int| 0 <= i < n implies (#[trigger] s.drop_last()[i]).len()
            == t.drop_last()[i].len() by {
            assert(s[i].len() == t[i].len());
        }
        lemma_alike_len(s.drop_last(), t.drop_last());
        lemma_beginnings(
            concat_all(s.drop_last()),
            s.last(),
            concat_all(t.drop_last()),
            t.last(),
        );
        lemma_strung_apart(s.drop_last(), t.drop_last());
        assert(s =~= s.drop_last().push(s.last()));
        assert(t =~= t.drop_last().push(t.last()));
    } else {
        assert(s =~= t);
    }
}

/// Strung sequences are all of them, one behind the other.
pub proof fn law_strung(s: Seq<Seq<int>>)
    ensures
        concat_all(s) == s.flatten(),
    decreases s.len(),
{
    s.lemma_flatten_and_flatten_alt_are_equivalent();
    if s.len() > 0 {
        law_strung(s.drop_last());
        s.drop_last().lemma_flatten_and_flatten_alt_are_equivalent();
    }
}

/// The numbers by which a random oracle takes in a folded instance come in this order: the
/// commitments to the witness and to the weights, the claim, the running claims, the commitments
/// to the lookups and to the multiplicities, the scalar and the public values.
pub proof fn law_inputs_order(v: FoldedVal)
    ensures
        ({
            let s = folded_inputs(v);
            let a = v.comm_W.len() as int;
            let b = a + v.comm_E.len();
            let c = b + 1 + or_empty(v.T_lookup).len();
            let d = c + concat_all(or_empty(v.comm_L)).len();
            let e = d + concat_all(or_empty(v.comm_ts)).len();
            &&& s.len() == e + 1 + v.X.len()
            &&& s.subrange(0, a) == v.comm_W
            &&& s.subrange(a, b) == v.comm_E
            &&& s[b] == v.T
            &&& s.subrange(b + 1, c) == or_empty(v.T_lookup)
            &&& s.subrange(c, d) == concat_all(or_empty(v.comm_L))
            &&& s.subrange(d, e) == concat_all(or_empty(v.comm_ts))
            &&& s[e] == v.u
            &&& s.subrange(e + 1, s.len() as int) == v.X
        }),
{
    let s = folded_inputs(v);
    let a = v.comm_W.len() as int;
    let b = a + v.comm_E.len();
    let c = b + 1 + or_empty(v.T_lookup).len();
    let d = c + concat_all(or_empty(v.comm_L)).len();
    let e = d + concat_all(or_empty(v.comm_ts)).len();
    assert(s.subrange(0, a) =~= v.comm_W);
    assert(s.subrange(a, b) =~= v.comm_E);
    assert(s.subrange(b + 1, c) =~= or_empty(v.T_lookup));
    assert(s.subrange(c, d) =~= concat_all(or_empty(v.comm_L)));
    assert(s.subrange(d, e) =~= concat_all(or_empty(v.comm_ts)));
    assert(s.subrange(e + 1, s.len() as int) =~= v.X);
}

/// The numbers that a random oracle takes in determine the instance: two instances of the same
/// layout that are taken in alike are equal, in their running claims and in the commitments of
/// their tables too.
pub proof fn law_inputs_determine(v: FoldedVal, w: FoldedVal)
    requires
        same_layout(v, w),
        folded_inputs(v) == folded_inputs(w),
    ensures
        v == w,
{
    let (tv, tw) = (or_empty(v.T_lookup), or_empty(w.T_lookup));
    let (lv, lw) = (concat_all(or_empty(v.comm_L)), concat_all(or_empty(w.comm_L)));
    let (sv, sw) = (concat_all(or_empty(v.comm_ts)), concat_all(or_empty(w.comm_ts)));
    lemma_alike_len(or_empty(v.comm_L), or_empty(w.comm_L));
    lemma_alike_len(or_empty(v.comm_ts), or_empty(w.comm_ts));
    let v6 = v.comm_W + v.comm_E + seq![v.T] + tv + lv + sv + seq![v.u];
    let w6 = w.comm_W + w.comm_E + seq![w.T] + tw + lw + sw + seq![w.u];
    lemma_beginnings(v6, v.X, w6, w.X);
    let v5 = v.comm_W + v.comm_E + seq![v.T] + tv + lv + sv;
    let w5 = w.comm_W + w.comm_E + seq![w.T] + tw + lw + sw;
    lemma_beginnings(v5, seq![v.u], w5, seq![w.u]);
    assert(seq![v.u][0] == seq![w.u][0]);
    let v4 = v.comm_W + v.comm_E + seq![v.T] + tv + lv;
    let w4 = w.comm_W + w.comm_E + seq![w.T] + tw + lw;
    lemma_beginnings(v4, sv, w4, sw);
    let v3 = v.comm_W + v.comm_E + seq![v.T] + tv;
    let w3 = w.comm_W + w.comm_E + seq![w.T] + tw;
    lemma_beginnings(v3, lv, w3, lw);
    lemma_beginnings(v.comm_W + v.comm_E + seq![v.T], tv, w.comm_W + w.comm_E + seq![w.T], tw);
    lemma_beginnings(v.comm_W + v.comm_E, seq![v.T], w.comm_W + w.comm_E, seq![w.T]);
    assert(seq![v.T][0] == seq![w.T][0]);
    lemma_beginnings(v.comm_W, v.comm_E, w.comm_W, w.comm_E);
    lemma_strung_apart(or_empty(v.comm_L), or_empty(w.comm_L));
    lemma_strung_apart(or_empty(v.comm_ts), or_empty(w.comm_ts));
    assert(v.T_lookup == w.T_lookup);
    assert(v.comm_L == w.comm_L);
    assert(v.comm_ts == w.comm_ts);
}

/// The parts of a folded instance taken in one after the other are the instance taken in.
pub proof fn lemma_folded_absorbed(
    start: Seq<RoItem<int>>,
    head: Seq<RoItem<int>>,
    tables: Seq<RoItem<int>>,
    all: Seq<RoItem<int>>,
    v: FoldedVal,
)
    requires
        head == (start + absorbs(v.comm_W) + absorbs(v.comm_E)).push(RoItem::Absorb(v.T)),
        tables == head + absorbs(or_empty(v.T_lookup)) + absorbs(concat_all(or_empty(v.comm_L)))
            + absorbs(concat_all(or_empty(v.comm_ts))),
        all == tables.push(RoItem::Absorb(v.u)) + absorbs(v.X),
    ensures
        all == start + absorbs(folded_inputs(v)),
{
    let a = v.comm_W + v.comm_E + seq![v.T];
    let b = or_empty(v.T_lookup);
    let c = concat_all(or_empty(v.comm_L));
    let d = concat_all(or_empty(v.comm_ts));
    lemma_absorbs_add(v.comm_W + v.comm_E, seq![v.T]);
    lemma_absorbs_add(v.comm_W, v.comm_E);
    assert(head =~= start + absorbs(a));
    lemma_absorbs_add(a, b);
    lemma_absorbs_add(a + b, c);
    lemma_absorbs_add(a + b + c, d);
    assert(tables =~= start + absorbs(a + b + c + d));
    lemma_absorbs_add(a + b + c + d, seq![v.u]);
    lemma_absorbs_add(a + b + c + d + seq![v.u], v.X);
    assert(all =~= start + absorbs(folded_inputs(v)));
}

/// A copy of a vector of group elements that may be missing.
pub fn copy_opt_points<E: Engine>(v: &Option<Vec<E::GE>>) -> (r: Option<Vec<E::GE>>)
    ensures
        r is Some <==> v is Some,
        v is Some ==> r->Some_0@ == v->Some_0@,
{
    match v {
        Some(x) => Some(copy_points::<E>(x)),
        None => None,
    }
}

pub fn repeat_identity<E: Engine>(k: usize) -> (r: Vec<E::GE>)
    ensures
        r@.len() == k,
        forall|i: int| 0 <= i < k ==> (#[trigger] r@[i]).log() == 0,
{
    let mut r: Vec<E::GE> = Vec::new();
    let mut i: usize = 0;
    while i < k
        invariant
            i <= k,
            r@.len() == i,
            forall|j: int| 0 <= j < i ==> (#[trigger] r@[j]).log() == 0,
        decreases k - i,
    {
        r.push(E::GE::identity());
        i = i + 1;
    }
    r
}

/// A vector of zeros.
pub fn zeros<F: PrimeField>(n: usize) -> (r: Vec<F>)
    ensures
        r@.len() == n,
        vals(r@) == Seq::new(n as nat, |i: int| 0int),
{
    let mut r: Vec<F> = Vec::new();
    let mut i: usize = 0;
    while i < n
        invariant
            i <= n,
            r@.len() == i,
            forall|j: int| 0 <= j < i ==> (#[trigger] r@[j]).val() == 0,
        decreases n - i,
    {
        r.push(F::zero());
        i = i + 1;
    }
    proof {
        assert(vals(r@) =~= Seq::new(n as nat, |i: int| 0int));
    }
    r
}

impl<E: Engine> FoldedInstance<E> {
    /// The instance as plain integers.
    pub open spec fn view(&self) -> FoldedVal {
        FoldedVal {
            comm_W: E::GE::coordinates(self.comm_W.log()),
            comm_E: E::GE::coordinates(self.comm_E.log()),
            T: self.T.val(),
            T_lookup: opt_vals(self.T_lookup),
            comm_L: opt_coords::<E>(self.comm_L),
            comm_ts: opt_coords::<E>(self.comm_ts),
            u: self.u.val(),
            X: vals(self.X@),
        }
    }

    /// The running claims of the lookup tables, where there are any.
    pub fn t_lookup(&self) -> (r: Option<&Vec<E::Scalar>>)
        ensures
            r is Some <==> self.T_lookup is Some,
            r is Some ==> r->Some_0@ == self.T_lookup->Some_0@,
    {
        match &self.T_lookup {
            Some(v) => Some(v),
            None => None,
        }
    }

    /// The instance that a chain of folds without lookups starts from.
    pub fn default(num_io: usize) -> (r: Self)
        ensures
            r@ == default_folded(num_io as nat, None),
            r.comm_inv_w is None,
            r.comm_inv_t is None,
            r.comm_W.log() == 0,
            r.comm_E.log() == 0,
    {
        let r = FoldedInstance {
            comm_W: E::GE::identity(),
            comm_E: E::GE::identity(),
            T: E::Scalar::zero(),
            u: E::Scalar::zero(),
            X: zeros(num_io),
            comm_L: None,
            comm_ts: None,
            comm_inv_w: None,
            comm_inv_t: None,
            T_lookup: None,
        };
        proof {
            E::GE::lemma_coordinates(0);
        }
        r
    }

    /// The instance that a chain of folds with `k` lookup tables starts from.
    pub fn default_with_lookup_k(num_io: usize, k: usize) -> (r: Self)
        ensures
            r@ == default_folded(num_io as nat, Some(k as nat)),
            r.comm_inv_w is None,
            r.comm_inv_t is None,
            r.comm_W.log() == 0,
            r.comm_E.log() == 0,
            forall|j: int| 0 <= j < k ==> (#[trigger] r.comm_L->Some_0@[j]).log() == 0,
            forall|j: int| 0 <= j < k ==> (#[trigger] r.comm_ts->Some_0@[j]).log() == 0,
    {
        let r = FoldedInstance {
            comm_W: E::GE::identity(),
            comm_E: E::GE::identity(),
            T: E::Scalar::zero(),
            u: E::Scalar::zero(),
            X: zeros(num_io),
            comm_L: Some(repeat_identity::<E>(k)),
            comm_ts: Some(repeat_identity::<E>(k)),
            comm_inv_w: None,
            comm_inv_t: None,
            T_lookup: Some(zeros(k)),
        };
        proof {
            E::GE::lemma_coordinates(0);
            let d = default_folded(num_io as nat, Some(k as nat));
            assert(r@.comm_L->Some_0 =~= d.comm_L->Some_0);
            assert(r@.comm_ts->Some_0 =~= d.comm_ts->Some_0);
        }
        r
    }

    /// A copy of the instance.
    pub fn duplicate(&self) -> (r: Self)
        ensures
            r@ == self@,
            r.comm_W == self.comm_W,
            r.comm_E == self.comm_E,
            r.T == self.T,
            r.u == self.u,
            r.X@ == self.X@,
            r.comm_L is Some <==> self.comm_L is Some,
            r.comm_L is Some ==> r.comm_L->Some_0@ == self.comm_L->Some_0@,
            r.comm_ts is Some <==> self.comm_ts is Some,
            r.comm_ts is Some ==> r.comm_ts->Some_0@ == self.comm_ts->Some_0@,
            r.comm_inv_w is Some <==> self.comm_inv_w is Some,
            r.comm_inv_w is Some ==> r.comm_inv_w->Some_0@ == self.comm_inv_w->Some_0@,
            r.comm_inv_t is Some <==> self.comm_inv_t is Some,
            r.comm_inv_t is Some ==> r.comm_inv_t->Some_0@ == self.comm_inv_t->Some_0@,
            r.T_lookup is Some ==> r.T_lookup->Some_0@ == self.T_lookup->Some_0@,
    {
        FoldedInstance {
            comm_W: self.comm_W,
            comm_E: self.comm_E,
            T: self.T,
            u: self.u,
            X: copy_scalars(self.X.as_slice()),
            comm_L: copy_opt_points::<E>(&self.comm_L),
            comm_ts: copy_opt_points::<E>(&self.comm_ts),
            comm_inv_w: copy_opt_points::<E>(&self.comm_inv_w),
            comm_inv_t: copy_opt_points::<E>(&self.comm_inv_t),
            T_lookup: match &self.T_lookup {
                Some(v) => Some(copy_scalars(v.as_slice())),
                None => None,
            },
        }
    }

    /// Takes in the instance: the commitments to witness and error, the running claim, the
    /// running claims and commitments of the tables, the relaxation scalar and the public values.
    pub fn absorb_in_ro2(&self, ro: &mut RO2<E>)
        ensures
            final(ro)@ == old(ro)@ + absorbs(folded_inputs(self@)),
    {
        absorb_point(ro, &self.comm_W);
        absorb_point(ro, &self.comm_E);
        ro.absorb(self.T);
        let ghost s0 = ro@;
        match &self.T_lookup {
            Some(v) => {
                absorb_scalars(ro, v);
            },
            None => {},
        }
        let ghost s1 = ro@;
        match &self.comm_L {
            Some(v) => {
                absorb_points(ro, v);
            },
            None => {},
        }
        let ghost s2 = ro@;
        match &self.comm_ts {
            Some(v) => {
                absorb_points(ro, v);
            },
            None => {},
        }
        let ghost s3 = ro@;
        ro.absorb(self.u);
        absorb_scalars(ro, &self.X);
        proof {
            let v = self@;
            assert(s1 =~= s0 + absorbs(or_empty(v.T_lookup)));
            assert(s2 =~= s1 + absorbs(concat_all(or_empty(v.comm_L))));
            assert(s3 =~= s2 + absorbs(concat_all(or_empty(v.comm_ts))));
            lemma_folded_absorbed(old(ro)@, s0, s3, ro@, v);
        }
    }
}

/// Takes in the scalars of a vector.
pub fn absorb_scalars<E: Engine>(ro: &mut RO2<E>, v: &Vec<E::Scalar>)
    ensures
        final(ro)@ == old(ro)@ + absorbs(vals(v@)),
{
    let n: usize = v.len();
    let mut i: usize = 0;
    assert(ro@ =~= old(ro)@ + absorbs(vals(v@).take(0)));
    while i < n
        invariant
            i <= n,
            n == v@.len(),
            ro@ == old(ro)@ + absorbs(vals(v@).take(i as int)),
        decreases n - i,
    {
        ro.absorb(v[i]);
        assert(ro@ =~= old(ro)@ + absorbs(vals(v@).take(i as int + 1)));
        i = i + 1;
    }
    assert(vals(v@).take(n as int) =~= vals(v@));
}

/// Takes in the group elements of a vector.
pub fn absorb_points<E: Engine>(ro: &mut RO2<E>, v: &Vec<E::GE>)
    ensures
        final(ro)@ == old(ro)@ + absorbs(concat_all(coords::<E>(v@))),
{
    let n: usize = v.len();
    let mut i: usize = 0;
    assert(ro@ =~= old(ro)@ + absorbs(concat_all(coords::<E>(v@).take(0))));
    while i < n
        invariant
            i <= n,
            n == v@.len(),
            ro@ == old(ro)@ + absorbs(concat_all(coords::<E>(v@).take(i as int))),
        decreases n - i,
    {
        absorb_point(ro, &v[i]);
        proof {
            let t = coords::<E>(v@).take(i as int + 1);
            assert(t.drop_last() =~= coords::<E>(v@).take(i as int));
            assert(ro@ =~= old(ro)@ + absorbs(concat_all(t)));
        }
        i = i + 1;
    }
    assert(coords::<E>(v@).take(n as int) =~= coords::<E>(v@));
}

/// An instance of the step circuit: the commitment to its witness and its public values.
pub struct R1CSInstance<E: Engine> {
    pub comm_W: E::GE,
    pub X: Vec<E::Scalar>,
}

/// An instance of the step circuit as plain integers.
pub struct R1CSVal {
    pub comm_W: Seq<int>,
    pub X: int,
}

/// The message that a prover sends for one fold.
pub struct NIFS<E: Engine> {
    pub comm_E: E::GE,
    pub poly: UniPoly<E::Scalar>,
    pub poly_lookup: Option<Vec<UniPoly<E::Scalar>>>,
    pub comm_inv_w: Option<Vec<E::GE>>,
    pub comm_inv_t: Option<Vec<E::GE>>,
    pub comm_L_fold_per_table: Option<Vec<E::GE>>,
    pub comm_ts_fold_per_table: Option<Vec<E::GE>>,
}

/// The public side of one lookup of a step.
pub struct LookupPayloadPublic<E: Engine> {
    pub comm_L: E::GE,
    pub comm_ts: E::GE,
}

/// The public side of the lookups of a step in one table.
pub struct LookupPayloadPublicMultiTable<E: Engine> {
    pub table_id: u64,
    pub comm_L: E::GE,
    pub comm_values: Vec<E::GE>,
    pub comm_ts: E::GE,
}

/// The lookups in one table as plain integers.
pub struct TableVal {
    pub comm_L: Seq<int>,
    pub comm_values: Seq<Seq<int>>,
    pub comm_ts: Seq<int>,
}

impl<E: Engine> LookupPayloadPublicMultiTable<E> {
    /// The payload as plain integers.
    pub open spec fn view(&self) -> TableVal {
        TableVal {
            comm_L: E::GE::coordinates(self.comm_L.log()),
            comm_values: coords::<E>(self.comm_values@),
            comm_ts: E::GE::coordinates(self.comm_ts.log()),
        }
    }
}

/// The private side of the lookups in one table, folded over all steps.
pub struct LookupRunningWitness<E: Engine> {
    pub witness: Vec<E::Scalar>,
    pub inv_w: Vec<E::Scalar>,
    pub table: Vec<E::Scalar>,
    pub multiplicities: Vec<E::Scalar>,
    pub inv_t: Vec<E::Scalar>,
    pub eq_w_left: Vec<E::Scalar>,
    pub eq_w_right: Vec<E::Scalar>,
    pub eq_t_left: Vec<E::Scalar>,
    pub eq_t_right: Vec<E::Scalar>,
}

/// Two running witnesses hold the same vectors.
pub open spec fn same_running<E: Engine>(
    a: LookupRunningWitness<E>,
    b: LookupRunningWitness<E>,
) -> bool {
    &&& a.witness@ == b.witness@
    &&& a.inv_w@ == b.inv_w@
    &&& a.table@ == b.table@
    &&& a.multiplicities@ == b.multiplicities@
    &&& a.inv_t@ == b.inv_t@
    &&& a.eq_w_left@ == b.eq_w_left@
    &&& a.eq_w_right@ == b.eq_w_right@
    &&& a.eq_t_left@ == b.eq_t_left@
    &&& a.eq_t_right@ == b.eq_t_right@
}

impl<E: Engine> LookupRunningWitness<E> {
    /// A copy of the running witness.
    pub fn duplicate(&self) -> (r: Self)
        ensures
            same_running(r, *self),
    {
        LookupRunningWitness {
            witness: copy_scalars(&self.witness),
            inv_w: copy_scalars(&self.inv_w),
            table: copy_scalars(&self.table),
            multiplicities: copy_scalars(&self.multiplicities),
            inv_t: copy_scalars(&self.inv_t),
            eq_w_left: copy_scalars(&self.eq_w_left),
            eq_w_right: copy_scalars(&self.eq_w_right),
            eq_t_left: copy_scalars(&self.eq_t_left),
            eq_t_right: copy_scalars(&self.eq_t_right),
        }
    }
}

/// A folded instance is read as what it holds: the coordinates of its commitments, its claim, its
/// scalar and public values, and, where it has them, every running claim and the coordinates of
/// every commitment of its tables.
pub proof fn law_instance_read<E: Engine>(U: FoldedInstance<E>)
    ensures
        U@.comm_W == E::GE::coordinates(U.comm_W.log()),
        U@.comm_E == E::GE::coordinates(U.comm_E.log()),
        U@.T == U.T.val(),
        U@.u == U.u.val(),
        U@.X.len() == U.X@.len(),
        forall|i: int| 0 <= i < U.X@.len() ==> U@.X[i] == (#[trigger] U.X@[i]).val(),
        U@.T_lookup is Some <==> U.T_lookup is Some,
        U.T_lookup is Some ==> {
            &&& U@.T_lookup->Some_0.len() == U.T_lookup->Some_0@.len()
            &&& forall|j: int|
                0 <= j < U.T_lookup->Some_0@.len() ==> U@.T_lookup->Some_0[j] == (
                #[trigger] U.T_lookup->Some_0@[j]).val()
        },
        U@.comm_L is Some <==> U.comm_L is Some,
        U.comm_L is Some ==> {
            &&& U@.comm_L->Some_0.len() == U.comm_L->Some_0@.len()
            &&& forall|j: int|
                0 <= j < U.comm_L->Some_0@.len() ==> U@.comm_L->Some_0[j] == E::GE::coordinates(
                    (#[trigger] U.comm_L->Some_0@[j]).log(),
                )
        },
        U@.comm_ts is Some <==> U.comm_ts is Some,
        U.comm_ts is Some ==> {
            &&& U@.comm_ts->Some_0.len() == U.comm_ts->Some_0@.len()
            &&& forall|j: int|
                0 <= j < U.comm_ts->Some_0@.len() ==> U@.comm_ts->Some_0[j] == E::GE::coordinates(
                    (#[trigger] U.comm_ts->Some_0@[j]).log(),
                )
        },
{
}

} // verus!
