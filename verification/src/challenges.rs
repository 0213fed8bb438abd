//! What the challenges of a fold depend on, and what its checks say.

use crate::circuit::lookup::{claim_carried, eq_at};
use crate::circuit::nifs::{
    fold_checks, fold_eq, fold_r_b, fold_rho, folds_to, r_b_log, rho_log, squeezes, table_inputs,
    tables_inputs, tables_log, tau_log, with_columns, FoldInput,
};
use crate::circuit::r1cs::r1cs_inputs;
use crate::engine::{Engine, Group, RoItem, NUM_CHALLENGE_BITS};
use crate::field::{
    lemma_cong_add, lemma_cong_diff, lemma_cong_mul, lemma_reduced, lemma_residue, PrimeField,
};
use crate::nifs::{
    before_renewal, carried_claims, fold_counted, fold_gamma, fold_input, fold_r, folded_natively,
};
use crate::point::{absorbs, law_absorbs_apart};
use crate::poly::{claim_met, law_peval_sum, peval, vals};
use crate::relation::{
    alike, concat_all, lemma_alike_len, lemma_beginnings, lemma_strung_apart, FoldedInstance,
    FoldedVal, LookupPayloadPublicMultiTable, R1CSInstance, TableVal, NIFS,
};
use crate::sums::{lemma_sum_same, sum};
use vstd::arithmetic::power::pow;
use vstd::prelude::*;

verus! {

/// The public sides of the lookups of two steps have the same layout.
pub open spec fn tables_alike(s: Seq<TableVal>, t: Seq<TableVal>) -> bool {
    &&& s.len() == t.len()
    &&& forall|j: int|
        0 <= j < s.len() ==> {
            &&& (#[trigger] s[j]).comm_L.len() == t[j].comm_L.len()
            &&& s[j].comm_ts.len() == t[j].comm_ts.len()
            &&& alike(s[j].comm_values, t[j].comm_values)
        }
}

/// What two folds are verified on has the same layout.
pub open spec fn inputs_alike(x: FoldInput, y: FoldInput) -> bool {
    &&& x.U2.comm_W.len() == y.U2.comm_W.len()
    &&& x.comm_E.len() == y.comm_E.len()
    &&& x.poly.len() == y.poly.len()
    &&& tables_alike(x.tables, y.tables)
    &&& alike(x.polys, y.polys)
    &&& alike(x.inv_w, y.inv_w)
    &&& alike(x.inv_t, y.inv_t)
}

/// How many of the tables have value columns, counted one by one.
pub proof fn law_with_columns_sum(s: Seq<TableVal>)
    ensures
        with_columns(s) == sum(
            s.len(),
            |j: int|
                if s[j].comm_values.len() == 0 {
                    0
                } else {
                    1
                },
        ),
    decreases s.len(),
{
    if s.len() > 0 {
        let t = s.drop_last();
        law_with_columns_sum(t);
        lemma_sum_same(
            t.len(),
            |j: int|
                if s[j].comm_values.len() == 0 {
                    0
                } else {
                    1
                },
            |j: int|
                if t[j].comm_values.len() == 0 {
                    0
                } else {
                    1
                },
        );
    }
}

proof fn lemma_table_inputs_len(s: TableVal, t: TableVal)
    requires
        s.comm_L.len() == t.comm_L.len(),
        s.comm_ts.len() == t.comm_ts.len(),
        alike(s.comm_values, t.comm_values),
    ensures
        table_inputs(s).len() == table_inputs(t).len(),
{
    lemma_alike_len(s.comm_values, t.comm_values);
}

proof fn lemma_tables_inputs_len(s: Seq<TableVal>, t: Seq<TableVal>)
    requires
        tables_alike(s, t),
    ensures
        tables_inputs(s).len() == tables_inputs(t).len(),
        with_columns(s) == with_columns(t),
    decreases s.len(),
{
    if s.len() > 0 {
        let (a, b) = (s.drop_last(), t.drop_last());
        assert forall|j: int| 0 <= j < a.len() implies {
            &&& (#[trigger] a[j]).comm_L.len() == b[j].comm_L.len()
            &&& a[j].comm_ts.len() == b[j].comm_ts.len()
            &&& alike(a[j].comm_values, b[j].comm_values)
        } by {
            assert(a[j] == s[j] && b[j] == t[j]);
        }
        lemma_tables_inputs_len(a, b);
        assert(s[s.len() - 1].comm_L.len() == t[s.len() - 1].comm_L.len());
        lemma_table_inputs_len(s.last(), t.last());
    }
}

/// What the oracle takes in of the lookups determines them: commitments to the lookups, to every
/// value column and to the multiplicities, in every table.
pub proof fn law_tables_inputs_determine(s: Seq<TableVal>, t: Seq<TableVal>)
    requires
        tables_alike(s, t),
        tables_inputs(s) == tables_inputs(t),
    ensures
        s == t,
    decreases s.len(),
{
    if s.len() > 0 {
        let (a, b) = (s.drop_last(), t.drop_last());
        let (x, y) = (s.last(), t.last());
        assert forall|j: int| 0 <= j < a.len() implies {
            &&& (#[trigger] a[j]).comm_L.len() == b[j].comm_L.len()
            &&& a[j].comm_ts.len() == b[j].comm_ts.len()
            &&& alike(a[j].comm_values, b[j].comm_values)
        } by {
            assert(a[j] == s[j] && b[j] == t[j]);
        }
        lemma_tables_inputs_len(a, b);
        assert(s[s.len() - 1].comm_L.len() == t[s.len() - 1].comm_L.len());
        lemma_beginnings(tables_inputs(a), table_inputs(x), tables_inputs(b), table_inputs(y));
        law_tables_inputs_determine(a, b);
        lemma_alike_len(x.comm_values, y.comm_values);
        lemma_beginnings(
            x.comm_L + concat_all(x.comm_values),
            x.comm_ts,
            y.comm_L + concat_all(y.comm_values),
            y.comm_ts,
        );
        lemma_beginnings(
            x.comm_L,
            concat_all(x.comm_values),
            y.comm_L,
            concat_all(y.comm_values),
        );
        lemma_strung_apart(x.comm_values, y.comm_values);
        assert(s =~= a.push(x));
        assert(t =~= b.push(y));
    } else {
        assert(s =~= t);
    }
}

/// The first challenge is bound to the digest, to the whole instance that is folded in and to the
/// whole public side of the lookups: folds of one layout that the oracle has seen the same of
/// agree in them.
pub proof fn law_first_challenge_binds(x: FoldInput, y: FoldInput)
    requires
        inputs_alike(x, y),
        tau_log(x) == tau_log(y),
    ensures
        x.pp == y.pp,
        x.U2 == y.U2,
        x.tables == y.tables,
{
    let (a, b) = (seq![x.pp], seq![y.pp]);
    let (u, v) = (r1cs_inputs(x.U2), r1cs_inputs(y.U2));
    law_absorbs_apart(
        a + u + tables_inputs(x.tables),
        b + v + tables_inputs(y.tables),
    );
    lemma_tables_inputs_len(x.tables, y.tables);
    lemma_beginnings(a + u, tables_inputs(x.tables), b + v, tables_inputs(y.tables));
    lemma_beginnings(a, u, b, v);
    assert(a[0] == b[0]);
    lemma_beginnings(x.U2.comm_W, seq![x.U2.X], y.U2.comm_W, seq![y.U2.X]);
    assert(seq![x.U2.X][0] == seq![y.U2.X][0]);
    law_tables_inputs_determine(x.tables, y.tables);
}

/// The challenge `rho` comes behind the first one and is bound to all that the first one is, and
/// to the commitment to the new weights.
pub proof fn law_rho_binds<E: Engine>(x: FoldInput, y: FoldInput)
    requires
        inputs_alike(x, y),
        rho_log(x) == rho_log(y),
    ensures
        fold_rho::<E>(x) == E::challenge(rho_log(x), 128),
        rho_log(x).len() == tau_log(x).len() + 1 + x.comm_E.len(),
        rho_log(x).take(tau_log(x).len() as int) == tau_log(x),
        rho_log(x)[tau_log(x).len() as int] == RoItem::<int>::Squeeze(128),
        x.pp == y.pp,
        x.U2 == y.U2,
        x.tables == y.tables,
        x.comm_E == y.comm_E,
{
    let s = RoItem::<int>::Squeeze(NUM_CHALLENGE_BITS);
    lemma_tables_inputs_len(x.tables, y.tables);
    assert(tau_log(x).len() == tau_log(y).len());
    lemma_beginnings(
        tau_log(x).push(s),
        absorbs(x.comm_E),
        tau_log(y).push(s),
        absorbs(y.comm_E),
    );
    law_absorbs_apart(x.comm_E, y.comm_E);
    assert(tau_log(x).push(s).drop_last() =~= tau_log(x));
    assert(tau_log(y).push(s).drop_last() =~= tau_log(y));
    law_first_challenge_binds(x, y);
    assert(rho_log(x).take(tau_log(x).len() as int) =~= tau_log(x));
}

/// The challenges of the tables come behind `rho`: first one for each table with value columns,
/// which combines them, then one for each table.
pub proof fn law_table_challenges_follow<E: Engine>(x: FoldInput, c: nat, j: nat)
    ensures
        fold_gamma::<E>(x, c) == E::challenge(
            rho_log(x) + Seq::new(1 + c, |i: int| RoItem::<int>::Squeeze(128)),
            128,
        ),
        fold_r::<E>(x, j) == E::challenge(
            rho_log(x) + Seq::new(
                1 + with_columns(x.tables) + j,
                |i: int| RoItem::<int>::Squeeze(128),
            ),
            128,
        ),
        tables_log(x) == rho_log(x) + Seq::new(
            1 + with_columns(x.tables) + x.tables.len(),
            |i: int| RoItem::<int>::Squeeze(128),
        ),
{
    let s = RoItem::<int>::Squeeze(NUM_CHALLENGE_BITS);
    let w = with_columns(x.tables);
    assert(rho_log(x).push(s) + squeezes(c) =~= rho_log(x) + Seq::new(
        1 + c,
        |i: int| RoItem::<int>::Squeeze(128),
    ));
    assert(rho_log(x).push(s) + squeezes(w) + squeezes(j) =~= rho_log(x) + Seq::new(
        1 + w + j,
        |i: int| RoItem::<int>::Squeeze(128),
    ));
    assert(rho_log(x).push(s) + squeezes(w) + squeezes(x.tables.len()) =~= rho_log(x) + Seq::new(
        1 + w + x.tables.len(),
        |i: int| RoItem::<int>::Squeeze(128),
    ));
}

/// The challenge that instances are folded at comes last and is bound to everything that the
/// prover sends: besides what `rho` is bound to, the commitments to the inverses of every table,
/// the round polynomial and the round polynomials of every table.
pub proof fn law_last_challenge_binds<E: Engine>(x: FoldInput, y: FoldInput)
    requires
        inputs_alike(x, y),
        r_b_log(x) == r_b_log(y),
    ensures
        fold_r_b::<E>(x) == E::challenge(r_b_log(x), 128),
        r_b_log(x).take(rho_log(x).len() as int) == rho_log(x),
        r_b_log(x)[rho_log(x).len() as int] == RoItem::<int>::Squeeze(128),
        x.pp == y.pp,
        x.U2 == y.U2,
        x.tables == y.tables,
        x.comm_E == y.comm_E,
        x.inv_w == y.inv_w,
        x.inv_t == y.inv_t,
        x.poly == y.poly,
        x.polys == y.polys,
{
    lemma_tables_inputs_len(x.tables, y.tables);
    assert(tau_log(x).len() == tau_log(y).len());
    assert(rho_log(x).len() == rho_log(y).len());
    law_table_challenges_follow::<E>(x, 0, 0);
    law_table_challenges_follow::<E>(y, 0, 0);
    let n = 1 + with_columns(x.tables) + x.tables.len();
    let s = Seq::new(n, |i: int| RoItem::<int>::Squeeze(128));
    let t = Seq::new(
        1 + with_columns(y.tables) + y.tables.len(),
        |i: int| RoItem::<int>::Squeeze(128),
    );
    let (a, b) = (concat_all(x.inv_w), concat_all(y.inv_w));
    let (c, d) = (concat_all(x.inv_t), concat_all(y.inv_t));
    let (e, f) = (concat_all(x.polys), concat_all(y.polys));
    lemma_beginnings(
        rho_log(x) + s,
        absorbs(a + c + x.poly + e),
        rho_log(y) + t,
        absorbs(b + d + y.poly + f),
    );
    lemma_beginnings(rho_log(x), s, rho_log(y), t);
    law_rho_binds::<E>(x, y);
    law_absorbs_apart(a + c + x.poly + e, b + d + y.poly + f);
    lemma_alike_len(x.inv_w, y.inv_w);
    lemma_alike_len(x.inv_t, y.inv_t);
    lemma_alike_len(x.polys, y.polys);
    lemma_beginnings(a + c + x.poly, e, b + d + y.poly, f);
    lemma_beginnings(a + c, x.poly, b + d, y.poly);
    lemma_beginnings(a, c, b, d);
    lemma_strung_apart(x.inv_w, y.inv_w);
    lemma_strung_apart(x.inv_t, y.inv_t);
    lemma_strung_apart(x.polys, y.polys);
    assert(r_b_log(x).take(rho_log(x).len() as int) =~= rho_log(x));
}

/// The equality polynomial is one where two bits agree, zero where they do not, and linear in
/// either point.
pub proof fn law_eq_is_linear(p: int, a: int, b: int, x: int, y: int)
    requires
        p > 1,
    ensures
        eq_at(p, x, y) == eq_at(p, y, x),
        eq_at(p, 0, 0) == 1,
        eq_at(p, 1, 1) == 1,
        eq_at(p, 0, 1) == 0,
        eq_at(p, ((1 - x) * a + x * b), y) == ((1 - x) * eq_at(p, a, y) + x * eq_at(p, b, y)) % p,
{
    lemma_reduced(p, 1);
    lemma_reduced(p, 0);
    assert((1 - x) * (1 - y) + x * y == (1 - y) * (1 - x) + y * x) by (nonlinear_arith);
    let u = (1 - a) * (1 - y) + a * y;
    let v = (1 - b) * (1 - y) + b * y;
    let m = (1 - x) * a + x * b;
    lemma_residue(p, u);
    lemma_residue(p, v);
    lemma_cong_mul(p, 1 - x, u % p, 1 - x, u);
    lemma_cong_mul(p, x, v % p, x, v);
    lemma_cong_add(p, (1 - x) * (u % p), x * (v % p), (1 - x) * u, x * v);
    let c = 1 - y;
    let w = 2 * y - 1;
    assert((1 - a) * (1 - y) + a * y == c + a * w) by (nonlinear_arith)
        requires
            c == 1 - y,
            w == 2 * y - 1,
    ;
    assert((1 - b) * (1 - y) + b * y == c + b * w) by (nonlinear_arith)
        requires
            c == 1 - y,
            w == 2 * y - 1,
    ;
    assert((1 - m) * (1 - y) + m * y == c + m * w) by (nonlinear_arith)
        requires
            c == 1 - y,
            w == 2 * y - 1,
    ;
    let (aw, bw) = (a * w, b * w);
    assert(m * w == (1 - x) * aw + x * bw) by (nonlinear_arith)
        requires
            m == (1 - x) * a + x * b,
            aw == a * w,
            bw == b * w,
    ;
    assert((1 - x) * (c + aw) + x * (c + bw) == c + ((1 - x) * aw + x * bw)) by (nonlinear_arith);
}

/// The checks of a fold hold exactly if the round polynomial at zero and at one adds up to the
/// running claim times `1 - rho`, and that of every table adds up to the running claim of the
/// table. The value of a polynomial at zero is its first coefficient, that at one the sum of all.
pub proof fn law_checks_said<E: Engine>(x: FoldInput)
    requires
        x.poly.len() > 0,
        forall|j: int| 0 <= j < x.polys.len() ==> (#[trigger] x.polys[j]).len() > 0,
    ensures
        fold_checks::<E>(x) <==> {
            let p = E::Scalar::modulus();
            &&& (x.poly[0] + sum(x.poly.len(), |i: int| x.poly[i]) - x.U1.T * (1 - E::challenge(
                rho_log(x),
                128,
            ))) % p == 0
            &&& forall|j: int|
                0 <= j < x.polys.len() ==> ((#[trigger] x.polys[j])[0] + sum(
                    x.polys[j].len(),
                    |i: int| x.polys[j][i],
                )) % p == x.running[j]
        },
{
    let p = E::Scalar::modulus();
    E::Scalar::lemma_modulus();
    let c = x.U1.T * (1 - fold_rho::<E>(x));
    let a = x.poly[0] + sum(x.poly.len(), |i: int| x.poly[i]);
    lemma_ends(x.poly);
    lemma_cong_diff(p, a, c);
    assert forall|j: int| 0 <= j < x.polys.len() implies claim_met(
        p,
        #[trigger] x.polys[j],
        x.running[j],
    ) == ((x.polys[j][0] + sum(x.polys[j].len(), |i: int| x.polys[j][i])) % p == x.running[j]) by {
        let c = x.polys[j];
        lemma_ends(c);
        let f = |i: int| x.polys[j][i];
        let g = |i: int| c[i];
        lemma_sum_same(c.len(), f, g);
    }
}

/// A polynomial at zero and at one.
pub proof fn lemma_ends(c: Seq<int>)
    requires
        c.len() > 0,
    ensures
        peval(c, 0) == c[0],
        peval(c, 1) == sum(c.len(), |i: int| c[i]),
{
    assert(0 * peval(c.drop_first(), 0) == 0);
    law_peval_sum(c, 1);
    let f = |i: int| c[i] * pow(1, i as nat);
    let g = |i: int| c[i];
    assert forall|i: int| 0 <= i < c.len() implies #[trigger] f(i) == g(i) by {
        vstd::arithmetic::power::lemma1_pow(i as nat);
    }
    lemma_sum_same(c.len(), f, g);
}

/// What a fold yields: the given commitments; the running data of the tables as it was; the scalar
/// and the public value on the lines, at the last challenge, from those of the running instance to
/// one and to that of the instance folded in; and a claim that, times the equality polynomial at
/// the challenges, is the value of the round polynomial at the last challenge. The claims of the
/// tables are carried in the same way, each by its own polynomial.
pub proof fn law_fold_said<E: Engine>(
    x: FoldInput,
    comm_w: Seq<int>,
    comm_e: Seq<int>,
    out: FoldedVal,
    t_outs: Seq<int>,
)
    requires
        folds_to::<E>(x, comm_w, comm_e, out, t_outs),
    ensures
        ({
            let p = E::Scalar::modulus();
            let rho = E::challenge(rho_log(x), 128);
            let r = E::challenge(r_b_log(x), 128);
            let eq = (1 - rho) * (1 - r) + rho * r;
            &&& out.comm_W == comm_w
            &&& out.comm_E == comm_e
            &&& out.T_lookup == x.U1.T_lookup
            &&& out.comm_L == x.U1.comm_L
            &&& out.comm_ts == x.U1.comm_ts
            &&& out.u == ((1 - r) * x.U1.u + r) % p
            &&& out.X.len() == 1
            &&& out.X[0] == ((1 - r) * x.U1.X[0] + r * x.U2.X) % p
            &&& 0 <= out.T < p
            &&& (out.T * eq) % p == sum(x.poly.len(), |i: int| x.poly[i] * pow(r, i as nat)) % p
            &&& t_outs.len() == x.polys.len()
            &&& forall|j: int|
                0 <= j < x.polys.len() ==> {
                    &&& 0 <= #[trigger] t_outs[j] < p
                    &&& (t_outs[j] * eq) % p == sum(
                        x.polys[j].len(),
                        |i: int| x.polys[j][i] * pow(r, i as nat),
                    ) % p
                }
        }),
{
    let p = E::Scalar::modulus();
    E::Scalar::lemma_modulus();
    let rho = fold_rho::<E>(x);
    let r = fold_r_b::<E>(x);
    let eq = (1 - rho) * (1 - r) + rho * r;
    let (u, v) = (x.U1.u, x.U1.X[0]);
    let w = x.U2.X;
    assert(u + r * (1 - u) == (1 - r) * u + r) by (nonlinear_arith);
    assert(v + r * (w - v) == (1 - r) * v + r * w) by (nonlinear_arith);
    lemma_residue(p, eq);
    lemma_cong_mul(p, out.T, eq % p, out.T, eq);
    law_peval_sum(x.poly, r);
    assert forall|j: int| 0 <= j < x.polys.len() implies {
        &&& 0 <= #[trigger] t_outs[j] < p
        &&& (t_outs[j] * eq) % p == sum(
            x.polys[j].len(),
            |i: int| x.polys[j][i] * pow(r, i as nat),
        ) % p
    } by {
        assert(claim_carried(p, x.polys[j], fold_eq::<E>(x), r, t_outs[j]));
        lemma_cong_mul(p, t_outs[j], eq % p, t_outs[j], eq);
        let c = x.polys[j];
        law_peval_sum(c, r);
        lemma_sum_same(
            c.len(),
            |i: int| c[i] * pow(r, i as nat),
            |i: int| x.polys[j][i] * pow(r, i as nat),
        );
    }
}

/// What a fold is verified on outside of a circuit holds the digest, both instances, all of the
/// prover's message and every table, and as running claims those of the running instance or zeros.
pub proof fn law_fold_input_said<E: Engine>(
    pp: int,
    U1: FoldedInstance<E>,
    U2: R1CSInstance<E>,
    nifs: NIFS<E>,
    tables: Seq<LookupPayloadPublicMultiTable<E>>,
)
    requires
        U2.X@.len() == 1,
        fold_counted(U1, nifs, tables.len()),
    ensures
        ({
            let x = fold_input(pp, U1, U2, nifs, tables);
            &&& x.pp == pp
            &&& x.U1 == U1@
            &&& x.U2.comm_W == E::GE::coordinates(U2.comm_W.log())
            &&& x.U2.X == U2.X@[0].val()
            &&& x.comm_E == E::GE::coordinates(nifs.comm_E.log())
            &&& x.poly == vals(nifs.poly.coeffs@)
            &&& x.tables.len() == tables.len()
            &&& x.polys.len() == tables.len()
            &&& x.inv_w.len() == tables.len()
            &&& x.inv_t.len() == tables.len()
            &&& x.running.len() == tables.len()
            &&& forall|j: int|
                0 <= j < tables.len() ==> {
                    &&& (#[trigger] x.tables[j]).comm_L == E::GE::coordinates(
                        tables[j].comm_L.log(),
                    )
                    &&& x.tables[j].comm_ts == E::GE::coordinates(tables[j].comm_ts.log())
                    &&& x.tables[j].comm_values.len() == tables[j].comm_values@.len()
                    &&& forall|c: int|
                        0 <= c < tables[j].comm_values@.len() ==> (
                        #[trigger] x.tables[j].comm_values[c]) == E::GE::coordinates(
                            tables[j].comm_values@[c].log(),
                        )
                    &&& x.polys[j] == vals(nifs.poly_lookup->Some_0@[j].coeffs@)
                    &&& x.inv_w[j] == E::GE::coordinates(nifs.comm_inv_w->Some_0@[j].log())
                    &&& x.inv_t[j] == E::GE::coordinates(nifs.comm_inv_t->Some_0@[j].log())
                    &&& x.running[j] == match U1.T_lookup {
                        Some(t) => t@[j].val(),
                        None => 0,
                    }
                }
        }),
{
}

/// A fold outside of a circuit is accepted only if its checks hold and the equality polynomial does
/// not vanish. What it yields is, at the last challenge, on the lines from the running instance to
/// the instance folded in: the commitment to the witness, that to the weights, the scalar and the
/// public value. The claims are carried by the round polynomials; where there are tables, their
/// folded commitments are those of the message, else the running data is as it was.
pub proof fn law_native_fold_said<E: Engine>(
    pp: int,
    U1: FoldedInstance<E>,
    U2: R1CSInstance<E>,
    nifs: NIFS<E>,
    tables: Seq<LookupPayloadPublicMultiTable<E>>,
    U: FoldedInstance<E>,
)
    requires
        folded_natively(pp, U1, U2, nifs, tables, U),
        U1.X@.len() == 1,
        U2.X@.len() == 1,
    ensures
        ({
            let p = E::Scalar::modulus();
            let x = fold_input(pp, U1, U2, nifs, tables);
            let rho = E::challenge(rho_log(x), 128);
            let r = E::challenge(r_b_log(x), 128);
            let eq = (1 - rho) * (1 - r) + rho * r;
            &&& fold_checks::<E>(x)
            &&& eq % p != 0
            &&& U.comm_W.log() == ((1 - r) * U1.comm_W.log() + r * U2.comm_W.log()) % p
            &&& U.comm_E.log() == ((1 - r) * U1.comm_E.log() + r * nifs.comm_E.log()) % p
            &&& U.u.val() == ((1 - r) * U1.u.val() + r) % p
            &&& U.X@.len() == 1
            &&& U.X@[0].val() == ((1 - r) * U1.X@[0].val() + r * U2.X@[0].val()) % p
            &&& (U.T.val() * eq) % p == sum(
                nifs.poly.coeffs@.len(),
                |i: int| nifs.poly.coeffs@[i].val() * pow(r, i as nat),
            ) % p
            &&& if tables.len() > 0 {
                &&& U.T_lookup is Some
                &&& U.T_lookup->Some_0@.len() == x.polys.len()
                &&& forall|j: int|
                    0 <= j < x.polys.len() ==> ((#[trigger] U.T_lookup->Some_0@[j]).val() * eq) % p
                        == peval(x.polys[j], r) % p
                &&& U.comm_L is Some <==> nifs.comm_L_fold_per_table is Some
                &&& U.comm_L is Some ==> U.comm_L->Some_0@ == nifs.comm_L_fold_per_table->Some_0@
                &&& U.comm_ts is Some <==> nifs.comm_ts_fold_per_table is Some
                &&& U.comm_ts is Some ==> U.comm_ts->Some_0@
                    == nifs.comm_ts_fold_per_table->Some_0@
            } else {
                &&& U@.T_lookup == U1@.T_lookup
                &&& U@.comm_L == U1@.comm_L
                &&& U@.comm_ts == U1@.comm_ts
            }
        }),
{
    let p = E::Scalar::modulus();
    E::Scalar::lemma_modulus();
    let x = fold_input(pp, U1, U2, nifs, tables);
    let r = fold_r_b::<E>(x);
    let rho = fold_rho::<E>(x);
    let eq = (1 - rho) * (1 - r) + rho * r;
    let out = before_renewal(U@, U1@);
    let t_outs = carried_claims(U@, tables.len());
    law_fold_said::<E>(x, U@.comm_W, U@.comm_E, out, t_outs);
    let (a, b) = (U1.comm_W.log(), U2.comm_W.log());
    assert(a + r * (b - a) == (1 - r) * a + r * b) by (nonlinear_arith);
    let (c, d) = (U1.comm_E.log(), nifs.comm_E.log());
    assert(c + r * (d - c) == (1 - r) * c + r * d) by (nonlinear_arith);
    assert(vals(U.X@).len() == U.X@.len());
    assert(vals(U.X@)[0] == U.X@[0].val());
    assert(vals(U1.X@)[0] == U1.X@[0].val());
    lemma_sum_same(
        nifs.poly.coeffs@.len(),
        |i: int| nifs.poly.coeffs@[i].val() * pow(r, i as nat),
        |i: int| x.poly[i] * pow(r, i as nat),
    );
    if tables.len() > 0 {
        let t = U.T_lookup->Some_0@;
        assert(t_outs == vals(t));
        assert forall|j: int| 0 <= j < x.polys.len() implies ((#[trigger] t[j]).val() * eq) % p
            == peval(x.polys[j], r) % p by {
            assert(t_outs[j] == t[j].val());
            let c = x.polys[j];
            law_peval_sum(c, r);
            lemma_sum_same(
                c.len(),
                |i: int| c[i] * pow(r, i as nat),
                |i: int| x.polys[j][i] * pow(r, i as nat),
            );
        }
    }
}

} // verus!
