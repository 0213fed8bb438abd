//! One fold outside of a circuit: its transcript, its prover and its verifier.

use crate::circuit::lookup::{
    claim_carried, eq_at, first_coordinates, lookup_poly, nth_coordinates, payload_val, polys_at,
    AllocatedLookupNIFS, AllocatedLookupNIFSMultiTable, AllocatedLookupPayloadPublicMultiTable,
};
use crate::circuit::nifs::{
    fold_checks, fold_eq, fold_r_b, fold_rho, folds_to, law_carried_claim_unique, law_fold_unique,
    lookup_input, multi_table_input, payloads_at, r_b_log, rho_log, squeezes, table_at,
    table_inputs, tables_inputs, tau_log, with_columns, FoldInput,
};
use crate::circuit::r1cs::r1cs_val;
use crate::circuit::relation::{fold_val, line, points_at};
use crate::commitment::copy_scalars;
use crate::engine::{Engine, Group, RoItem, NUM_CHALLENGE_BITS, RO2};
use crate::errors::NovaError;
use crate::field::{lemma_cong_add, lemma_cong_mul, lemma_residue, PrimeField};
use crate::frontend::{AllocatedNum, Valuation};
use crate::gadgets::nums_at;
use crate::linear::point_between;
use crate::lookup_sumcheck::LookupSumcheckInstance;
use crate::point::{absorb_point, absorbs, AllocatedNonnativePoint};
use crate::poly::{claim_met, padded_poly, vals, UniPoly};
use crate::relation::{
    absorb_points, absorb_scalars, concat_all, copy_opt_points, opt_coords, opt_vals, or_empty,
    zeros, FoldedInstance, FoldedVal, LookupPayloadPublicMultiTable, R1CSInstance, TableVal, NIFS,
};
use crate::side::line_at;
use vstd::prelude::*;

verus! {

/// The public side of tables as plain integers.
pub open spec fn table_vals<E: Engine>(t: Seq<LookupPayloadPublicMultiTable<E>>) -> Seq<TableVal> {
    Seq::new(t.len(), |j: int| t[j]@)
}

/// Polynomials as plain integers.
pub open spec fn poly_vals<F: PrimeField>(s: Option<Vec<UniPoly<F>>>) -> Seq<Seq<int>> {
    match s {
        Some(v) => Seq::new(v@.len(), |j: int| v@[j]@),
        None => Seq::empty(),
    }
}

/// The running claims of `k` tables; zeros where there are none yet.
pub open spec fn running_or_zeros(t: Option<Seq<int>>, k: nat) -> Seq<int> {
    match t {
        Some(x) => x,
        None => Seq::new(k, |j: int| 0int),
    }
}

/// What a fold is verified on, as plain integers.
pub open spec fn fold_input<E: Engine>(
    pp: int,
    U1: FoldedInstance<E>,
    U2: R1CSInstance<E>,
    nifs: NIFS<E>,
    tables: Seq<LookupPayloadPublicMultiTable<E>>,
) -> FoldInput {
    FoldInput {
        pp,
        U1: U1@,
        U2: r1cs_val(Some(&U2)),
        comm_E: E::GE::coordinates(nifs.comm_E.log()),
        poly: nifs.poly@,
        tables: table_vals(tables),
        polys: poly_vals(nifs.poly_lookup),
        inv_w: or_empty(opt_coords::<E>(nifs.comm_inv_w)),
        inv_t: or_empty(opt_coords::<E>(nifs.comm_inv_t)),
        running: if tables.len() > 0 {
            running_or_zeros(U1@.T_lookup, tables.len())
        } else {
            Seq::empty()
        },
    }
}

/// The number of entries that may be missing.
pub open spec fn opt_len<T>(v: Option<Vec<T>>) -> nat {
    match v {
        Some(x) => x@.len(),
        None => 0,
    }
}

/// The message and the running instance have one entry per table everywhere; a running instance
/// may have no claims on tables yet.
pub open spec fn fold_counted<E: Engine>(U1: FoldedInstance<E>, nifs: NIFS<E>, k: nat) -> bool {
    &&& k > 0 && U1.T_lookup is Some ==> opt_len(U1.T_lookup) == k
    &&& opt_len(nifs.poly_lookup) == k
    &&& opt_len(nifs.comm_inv_w) == k
    &&& opt_len(nifs.comm_inv_t) == k
    &&& k > 0 ==> opt_len(nifs.comm_L_fold_per_table) == k
    &&& k > 0 ==> opt_len(nifs.comm_ts_fold_per_table) == k
}

/// How many entries there are.
pub fn count<T>(v: &Option<Vec<T>>) -> (n: usize)
    ensures
        n == opt_len(*v),
{
    match v {
        Some(x) => x.len(),
        None => 0,
    }
}

/// The equality polynomial at two points.
pub fn eq_of<F: PrimeField>(rho: F, r_b: F) -> (r: F)
    ensures
        r.val() == eq_at(F::modulus(), rho.val(), r_b.val()),
{
    let one = F::one();
    let nr = one.minus(rho);
    let nb = one.minus(r_b);
    let n = nr.times(nb);
    let y = rho.times(r_b);
    proof {
        let p = F::modulus();
        F::lemma_modulus();
        lemma_residue(p, 1 - rho.val());
        lemma_residue(p, 1 - r_b.val());
        lemma_cong_mul(p, nr.val(), nb.val(), 1 - rho.val(), 1 - r_b.val());
        lemma_residue(p, nr.val() * nb.val());
        lemma_residue(p, rho.val() * r_b.val());
        lemma_cong_add(
            p,
            n.val(),
            y.val(),
            (1 - rho.val()) * (1 - r_b.val()),
            rho.val() * r_b.val(),
        );
    }
    n.plus(y)
}

/// Takes in the public side of tables.
fn absorb_tables<E: Engine>(ro: &mut RO2<E>, tables: &Vec<LookupPayloadPublicMultiTable<E>>)
    ensures
        final(ro)@ == old(ro)@ + absorbs(tables_inputs(table_vals(tables@))),
{
    let ghost all = table_vals(tables@);
    let n: usize = tables.len();
    let mut i: usize = 0;
    assert(ro@ =~= old(ro)@ + absorbs(tables_inputs(all.take(0))));
    while i < n
        invariant
            i <= n,
            n == tables@.len(),
            all == table_vals(tables@),
            ro@ == old(ro)@ + absorbs(tables_inputs(all.take(i as int))),
        decreases n - i,
    {
        let ghost s0 = ro@;
        let t = &tables[i];
        absorb_point(ro, &t.comm_L);
        absorb_points(ro, &t.comm_values);
        absorb_point(ro, &t.comm_ts);
        proof {
            let next = all.take(i as int + 1);
            assert(next.drop_last() =~= all.take(i as int));
            assert(next.last() == t@);
            assert(ro@ =~= s0 + absorbs(table_inputs(t@)));
            assert(ro@ =~= old(ro)@ + absorbs(tables_inputs(next)));
        }
        i = i + 1;
    }
    assert(all.take(n as int) =~= all);
}

/// The oracle when it gives out `tau`.
pub fn start_fold<E: Engine>(
    pp_digest: E::Scalar,
    U2: &R1CSInstance<E>,
    tables: &Vec<LookupPayloadPublicMultiTable<E>>,
    Ghost(x): Ghost<FoldInput>,
) -> (ro: RO2<E>)
    requires
        U2.X@.len() == 1,
        x.pp == pp_digest.val(),
        x.U2 == r1cs_val(Some(U2)),
        x.tables == table_vals(tables@),
    ensures
        ro@ == tau_log(x),
{
    let mut ro = RO2::<E>::new();
    ro.absorb(pp_digest);
    absorb_point(&mut ro, &U2.comm_W);
    ro.absorb(U2.X[0]);
    absorb_tables(&mut ro, tables);
    proof {
        assert(ro@ =~= tau_log(x));
    }
    ro
}

/// Gives out a number of challenges.
fn squeeze_many<E: Engine>(ro: &mut RO2<E>, n: usize) -> (r: Vec<E::Scalar>)
    ensures
        final(ro)@ == old(ro)@ + squeezes(n as nat),
        r@.len() == n,
        forall|j: int|
            0 <= j < n ==> (#[trigger] r@[j]).val() == E::challenge(
                old(ro)@ + squeezes(j as nat),
                NUM_CHALLENGE_BITS,
            ),
{
    let mut r: Vec<E::Scalar> = Vec::new();
    let mut j: usize = 0;
    assert(ro@ =~= old(ro)@ + squeezes(0));
    while j < n
        invariant
            j <= n,
            r@.len() == j,
            ro@ == old(ro)@ + squeezes(j as nat),
            forall|i: int|
                0 <= i < j ==> (#[trigger] r@[i]).val() == E::challenge(
                    old(ro)@ + squeezes(i as nat),
                    NUM_CHALLENGE_BITS,
                ),
        decreases n - j,
    {
        let c = ro.squeeze(NUM_CHALLENGE_BITS);
        r.push(c);
        assert(ro@ =~= old(ro)@ + squeezes((j + 1) as nat));
        j = j + 1;
    }
    r
}

/// The number of tables with value columns.
fn count_columns<E: Engine>(tables: &Vec<LookupPayloadPublicMultiTable<E>>) -> (n: usize)
    ensures
        n == with_columns(table_vals(tables@)),
        n <= tables@.len(),
{
    let ghost all = table_vals(tables@);
    let k: usize = tables.len();
    let mut n: usize = 0;
    let mut i: usize = 0;
    assert(all.take(0) =~= Seq::<TableVal>::empty());
    while i < k
        invariant
            i <= k,
            k == tables@.len(),
            all == table_vals(tables@),
            n <= i,
            n == with_columns(all.take(i as int)),
        decreases k - i,
    {
        proof {
            let next = all.take(i as int + 1);
            assert(next.drop_last() =~= all.take(i as int));
            assert(next.last() == tables@[i as int]@);
        }
        if tables[i].comm_values.len() > 0 {
            n = n + 1;
        }
        i = i + 1;
    }
    assert(all.take(k as int) =~= all);
    n
}

/// The oracle behind `rho` and the challenges of the tables.
pub struct FoldChallenges<E: Engine> {
    pub rho: E::Scalar,
    /// The challenges that combine the columns of the tables that have some.
    pub gammas: Vec<E::Scalar>,
    /// The challenges of the tables.
    pub rs: Vec<E::Scalar>,
}

/// What the oracle has seen when it gives out the challenges of the tables.
pub open spec fn columns_log(x: FoldInput) -> Seq<RoItem<int>> {
    rho_log(x).push(RoItem::Squeeze(NUM_CHALLENGE_BITS))
}

/// The challenge that combines the columns of the `c`-th table that has some.
pub open spec fn fold_gamma<E: Engine>(x: FoldInput, c: nat) -> int {
    E::challenge(columns_log(x) + squeezes(c), NUM_CHALLENGE_BITS)
}

/// The challenge of table `j`.
pub open spec fn fold_r<E: Engine>(x: FoldInput, j: nat) -> int {
    E::challenge(
        columns_log(x) + squeezes(with_columns(x.tables)) + squeezes(j),
        NUM_CHALLENGE_BITS,
    )
}

/// Takes in the new commitment and gives out `rho` and the challenges of the tables.
pub fn fold_challenges<E: Engine>(
    ro: &mut RO2<E>,
    comm_E: &E::GE,
    tables: &Vec<LookupPayloadPublicMultiTable<E>>,
    Ghost(x): Ghost<FoldInput>,
) -> (r: FoldChallenges<E>)
    requires
        old(ro)@ == tau_log(x).push(RoItem::Squeeze(NUM_CHALLENGE_BITS)),
        x.comm_E == E::GE::coordinates(comm_E.log()),
        x.tables == table_vals(tables@),
    ensures
        final(ro)@ == columns_log(x) + squeezes(with_columns(x.tables)) + squeezes(x.tables.len()),
        r.rho.val() == fold_rho::<E>(x),
        r.gammas@.len() == with_columns(x.tables),
        r.rs@.len() == tables@.len(),
        forall|c: int|
            0 <= c < r.gammas@.len() ==> (#[trigger] r.gammas@[c]).val() == fold_gamma::<E>(
                x,
                c as nat,
            ),
        forall|j: int|
            0 <= j < r.rs@.len() ==> (#[trigger] r.rs@[j]).val() == fold_r::<E>(x, j as nat),
{
    absorb_point(ro, comm_E);
    assert(ro@ =~= rho_log(x));
    let rho = ro.squeeze(NUM_CHALLENGE_BITS);
    assert(ro@ =~= columns_log(x));
    let gammas = squeeze_many(ro, count_columns(tables));
    let rs = squeeze_many(ro, tables.len());
    FoldChallenges { rho, gammas, rs }
}

/// Takes in polynomials.
fn absorb_polys<E: Engine>(ro: &mut RO2<E>, v: &Option<Vec<UniPoly<E::Scalar>>>)
    ensures
        final(ro)@ == old(ro)@ + absorbs(concat_all(poly_vals(*v))),
{
    let ghost all = poly_vals(*v);
    match v {
        Some(polys) => {
            let n: usize = polys.len();
            let mut i: usize = 0;
            assert(ro@ =~= old(ro)@ + absorbs(concat_all(all.take(0))));
            while i < n
                invariant
                    i <= n,
                    n == polys@.len(),
                    all == Seq::new(polys@.len(), |j: int| polys@[j]@),
                    ro@ == old(ro)@ + absorbs(concat_all(all.take(i as int))),
                decreases n - i,
            {
                let ghost s0 = ro@;
                absorb_scalars(ro, &polys[i].coeffs);
                proof {
                    let next = all.take(i as int + 1);
                    assert(next.drop_last() =~= all.take(i as int));
                    assert(next.last() == polys@[i as int]@);
                    assert(ro@ =~= old(ro)@ + absorbs(concat_all(next)));
                }
                i = i + 1;
            }
            assert(all.take(n as int) =~= all);
        },
        None => {
            assert(ro@ =~= old(ro)@ + absorbs(concat_all(all)));
        },
    }
}

/// Takes in points that may be missing.
fn absorb_opt_points<E: Engine>(ro: &mut RO2<E>, v: &Option<Vec<E::GE>>)
    ensures
        final(ro)@ == old(ro)@ + absorbs(concat_all(or_empty(opt_coords::<E>(*v)))),
{
    match v {
        Some(x) => {
            absorb_points(ro, x);
        },
        None => {
            assert(ro@ =~= old(ro)@ + absorbs(concat_all(or_empty(opt_coords::<E>(*v)))));
        },
    }
}

/// Takes in the message and gives out the challenge that the instances are folded at.
pub fn final_challenge<E: Engine>(ro: &mut RO2<E>, nifs: &NIFS<E>, Ghost(x): Ghost<FoldInput>) -> (
    r_b: E::Scalar)
    requires
        old(ro)@ == columns_log(x) + squeezes(with_columns(x.tables)) + squeezes(x.tables.len()),
        x.inv_w == or_empty(opt_coords::<E>(nifs.comm_inv_w)),
        x.inv_t == or_empty(opt_coords::<E>(nifs.comm_inv_t)),
        x.poly == nifs.poly@,
        x.polys == poly_vals(nifs.poly_lookup),
    ensures
        r_b.val() == fold_r_b::<E>(x),
{
    absorb_opt_points(ro, &nifs.comm_inv_w);
    absorb_opt_points(ro, &nifs.comm_inv_t);
    absorb_scalars(ro, &nifs.poly.coeffs);
    absorb_polys(ro, &nifs.poly_lookup);
    assert(ro@ =~= r_b_log(x));
    ro.squeeze(NUM_CHALLENGE_BITS)
}

/// The carried claims of the tables of a folded instance.
pub open spec fn carried_claims(U: FoldedVal, k: nat) -> Seq<int> {
    if k > 0 {
        or_empty(U.T_lookup)
    } else {
        Seq::empty()
    }
}

/// A folded instance with the running data of the tables as it was before.
pub open spec fn before_renewal(U: FoldedVal, U1: FoldedVal) -> FoldedVal {
    FoldedVal { T_lookup: U1.T_lookup, comm_L: U1.comm_L, comm_ts: U1.comm_ts, ..U }
}

/// `U` is what the running instance, the instance to fold in and the message fold to.
pub open spec fn folded_natively<E: Engine>(
    pp: int,
    U1: FoldedInstance<E>,
    U2: R1CSInstance<E>,
    nifs: NIFS<E>,
    tables: Seq<LookupPayloadPublicMultiTable<E>>,
    U: FoldedInstance<E>,
) -> bool {
    let p = E::Scalar::modulus();
    let x = fold_input(pp, U1, U2, nifs, tables);
    let r_b = fold_r_b::<E>(x);
    let k = tables.len();
    &&& fold_checks::<E>(x)
    &&& fold_eq::<E>(x) != 0
    &&& folds_to::<E>(
        x,
        U@.comm_W,
        U@.comm_E,
        before_renewal(U@, U1@),
        carried_claims(U@, k),
    )
    &&& U.comm_W.log() == line(p, U1.comm_W.log(), U2.comm_W.log(), r_b)
    &&& U.comm_E.log() == line(p, U1.comm_E.log(), nifs.comm_E.log(), r_b)
    &&& if k > 0 {
        &&& U@.T_lookup is Some
        &&& opt_points(U.comm_L) == opt_points(nifs.comm_L_fold_per_table)
        &&& opt_points(U.comm_ts) == opt_points(nifs.comm_ts_fold_per_table)
    } else {
        &&& U@.T_lookup == U1@.T_lookup
        &&& opt_points(U.comm_L) == opt_points(U1.comm_L)
        &&& opt_points(U.comm_ts) == opt_points(U1.comm_ts)
    }
}

/// Points that may be missing.
pub open spec fn opt_points<T>(v: Option<Vec<T>>) -> Option<Seq<T>> {
    match v {
        Some(x) => Some(x@),
        None => None,
    }
}

/// A fold of which a circuit reads the same as the verifier outside of the circuit yields the same
/// in both: the checks hold in the circuit, and the folded instance and the claims of the tables
/// are those of the verifier outside. Each claim is also what the check of a single table makes of
/// its polynomial at the challenges of the fold.
pub proof fn law_circuit_matches_native<E: Engine>(
    pp: int,
    U1: FoldedInstance<E>,
    U2: R1CSInstance<E>,
    nifs: NIFS<E>,
    tables: Seq<LookupPayloadPublicMultiTable<E>>,
    U: FoldedInstance<E>,
    x: FoldInput,
    comm_w: Seq<int>,
    comm_e: Seq<int>,
    out: FoldedVal,
    t_outs: Seq<int>,
)
    requires
        folded_natively(pp, U1, U2, nifs, tables, U),
        x == fold_input(pp, U1, U2, nifs, tables),
        folds_to::<E>(x, comm_w, comm_e, out, t_outs),
    ensures
        fold_checks::<E>(x),
        fold_eq::<E>(x) != 0,
        out == (FoldedVal { comm_W: comm_w, comm_E: comm_e, ..before_renewal(U@, U1@) }),
        t_outs == carried_claims(U@, tables.len()),
        forall|j: int, t: E::Scalar|
            0 <= j < x.polys.len() && #[trigger] claim_carried(
                E::Scalar::modulus(),
                x.polys[j],
                fold_eq::<E>(x),
                fold_r_b::<E>(x),
                t.val(),
            ) ==> t_outs[j] == t.val(),
{
    let p = E::Scalar::modulus();
    let eq = fold_eq::<E>(x);
    let r_b = fold_r_b::<E>(x);
    let rho = fold_rho::<E>(x);
    E::Scalar::lemma_modulus();
    lemma_residue(p, (1 - rho) * (1 - r_b) + rho * r_b);
    law_fold_unique::<E>(
        x,
        comm_w,
        comm_e,
        out,
        t_outs,
        FoldedVal { comm_W: comm_w, comm_E: comm_e, ..before_renewal(U@, U1@) },
        carried_claims(U@, tables.len()),
    );
    assert forall|j: int, t: E::Scalar|
        0 <= j < x.polys.len() && #[trigger] claim_carried(
            p,
            x.polys[j],
            eq,
            r_b,
            t.val(),
        ) implies t_outs[j] == t.val() by {
        E::Scalar::lemma_val(t);
        assert(claim_carried(p, x.polys[j], eq, r_b, t_outs[j]));
        law_carried_claim_unique(p, x.polys[j], eq, r_b, t_outs[j], t.val());
    }
}

/// The numbers of a fold without its lookups are those of a fold outside of the circuit.
pub open spec fn reads_fold<E: Engine>(
    plain: FoldInput,
    pp: int,
    U1: FoldedInstance<E>,
    U2: R1CSInstance<E>,
    nifs: NIFS<E>,
) -> bool {
    &&& plain.pp == pp
    &&& plain.U1 == U1@
    &&& plain.U2 == r1cs_val(Some(&U2))
    &&& plain.comm_E == E::GE::coordinates(nifs.comm_E.log())
    &&& plain.poly == nifs.poly@
}

/// The numbers of the lookups in several tables are those of a fold outside of the circuit.
pub open spec fn reads_tables<E: Engine>(
    lookups: AllocatedLookupNIFSMultiTable<E>,
    payloads: Seq<AllocatedLookupPayloadPublicMultiTable<E>>,
    running: Seq<AllocatedNum<E::Scalar>>,
    e: Valuation,
    U1: FoldedInstance<E>,
    nifs: NIFS<E>,
    tables: Seq<LookupPayloadPublicMultiTable<E>>,
) -> bool {
    &&& tables.len() > 0
    &&& payloads_at(payloads, e) == table_vals(tables)
    &&& polys_at(lookups.poly_lookup@, e) == poly_vals(nifs.poly_lookup)
    &&& points_at(lookups.comm_inv_w@, e) == or_empty(opt_coords::<E>(nifs.comm_inv_w))
    &&& points_at(lookups.comm_inv_t@, e) == or_empty(opt_coords::<E>(nifs.comm_inv_t))
    &&& nums_at(running, e) == running_or_zeros(U1@.T_lookup, tables.len())
}

/// The numbers of the lookups in one table are those of a fold outside of the circuit.
pub open spec fn reads_table<E: Engine>(
    lookup: AllocatedLookupNIFS<E>,
    table_val: TableVal,
    running: AllocatedNum<E::Scalar>,
    e: Valuation,
    U1: FoldedInstance<E>,
    nifs: NIFS<E>,
    table: LookupPayloadPublicMultiTable<E>,
) -> bool {
    &&& table_val == table@
    &&& poly_vals(nifs.poly_lookup) == seq![lookup.poly_lookup.at(e)]
    &&& or_empty(opt_coords::<E>(nifs.comm_inv_w)) == seq![lookup.comm_inv_w.at(e)]
    &&& or_empty(opt_coords::<E>(nifs.comm_inv_t)) == seq![lookup.comm_inv_t.at(e)]
    &&& running_or_zeros(U1@.T_lookup, 1) == seq![running.at(e)]
}

/// A circuit that the message and the instances of a fold with lookups in several tables are
/// taken up in reads the fold outside of the circuit. The polynomials of the message must be of the
/// degree that the circuit fixes, and the message must have one entry per table.
pub proof fn law_taken_up_tables_are_read<E: Engine>(
    pp: int,
    U1: FoldedInstance<E>,
    U2: R1CSInstance<E>,
    nifs: NIFS<E>,
    tables: Seq<LookupPayloadPublicMultiTable<E>>,
    plain: FoldInput,
    lookups: AllocatedLookupNIFSMultiTable<E>,
    payloads: Seq<AllocatedLookupPayloadPublicMultiTable<E>>,
    running: Seq<AllocatedNum<E::Scalar>>,
    e: Valuation,
)
    requires
        tables.len() > 0,
        nifs.poly@.len() == 6,
        poly_vals(nifs.poly_lookup).len() == tables.len(),
        opt_len(nifs.comm_inv_w) == tables.len(),
        opt_len(nifs.comm_inv_t) == tables.len(),
        forall|j: int|
            0 <= j < tables.len() ==> (#[trigger] poly_vals(nifs.poly_lookup)[j]).len() == 6,
        plain.pp == pp,
        plain.U1 == U1@,
        plain.U2 == r1cs_val(Some(&U2)),
        plain.comm_E == E::GE::coordinates(nifs.comm_E.log()),
        plain.poly == padded_poly(nifs.poly@, 6),
        polys_at(lookups.poly_lookup@, e) == Seq::new(
            tables.len(),
            |j: int| padded_poly(lookup_poly(Some(&nifs), j as nat), 6),
        ),
        points_at(lookups.comm_inv_w@, e) == first_coordinates::<E>(
            nifs.comm_inv_w,
            tables.len(),
        ),
        points_at(lookups.comm_inv_t@, e) == first_coordinates::<E>(
            nifs.comm_inv_t,
            tables.len(),
        ),
        payloads.len() == tables.len(),
        forall|j: int|
            0 <= j < tables.len() ==> (#[trigger] payloads[j]).at(e) == payload_val(
                Some(&tables[j]),
            ),
        nums_at(running, e) == running_or_zeros(U1@.T_lookup, tables.len()),
    ensures
        reads_fold(plain, pp, U1, U2, nifs),
        reads_tables(lookups, payloads, running, e, U1, nifs, tables),
        multi_table_input(plain, lookups, payloads_at(payloads, e), nums_at(running, e), e)
            == fold_input(pp, U1, U2, nifs, tables),
{
    let k = tables.len();
    assert(padded_poly(nifs.poly@, 6) =~= nifs.poly@);
    let polys = poly_vals(nifs.poly_lookup);
    assert forall|j: int| 0 <= j < k implies padded_poly(
        #[trigger] lookup_poly(Some(&nifs), j as nat),
        6,
    ) == polys[j] by {
        assert(padded_poly(polys[j], 6) =~= polys[j]);
    }
    assert(polys_at(lookups.poly_lookup@, e) =~= polys);
    assert(first_coordinates::<E>(nifs.comm_inv_w, k) =~= or_empty(
        opt_coords::<E>(nifs.comm_inv_w),
    ));
    assert(first_coordinates::<E>(nifs.comm_inv_t, k) =~= or_empty(
        opt_coords::<E>(nifs.comm_inv_t),
    ));
    assert(payloads_at(payloads, e) =~= table_vals(tables)) by {
        assert forall|j: int| 0 <= j < k implies payloads_at(payloads, e)[j] == table_vals(
            tables,
        )[j] by {
            assert(payloads[j].at(e) == payload_val(Some(&tables[j])));
        }
    }
}

/// A circuit that the message and the instances of a fold with lookups in one table are taken up
/// in reads the fold outside of the circuit.
pub proof fn law_taken_up_table_is_read<E: Engine>(
    pp: int,
    U1: FoldedInstance<E>,
    U2: R1CSInstance<E>,
    nifs: NIFS<E>,
    table: LookupPayloadPublicMultiTable<E>,
    plain: FoldInput,
    lookup: AllocatedLookupNIFS<E>,
    comm_L: AllocatedNonnativePoint<E>,
    comm_values: Seq<AllocatedNonnativePoint<E>>,
    comm_ts: AllocatedNonnativePoint<E>,
    running: AllocatedNum<E::Scalar>,
    e: Valuation,
)
    requires
        nifs.poly@.len() == 6,
        poly_vals(nifs.poly_lookup).len() == 1,
        poly_vals(nifs.poly_lookup)[0].len() == 6,
        opt_len(nifs.comm_inv_w) == 1,
        opt_len(nifs.comm_inv_t) == 1,
        plain.pp == pp,
        plain.U1 == U1@,
        plain.U2 == r1cs_val(Some(&U2)),
        plain.comm_E == E::GE::coordinates(nifs.comm_E.log()),
        plain.poly == padded_poly(nifs.poly@, 6),
        lookup.poly_lookup.at(e) == padded_poly(lookup_poly(Some(&nifs), 0), 6),
        lookup.comm_inv_w.at(e) == nth_coordinates::<E>(nifs.comm_inv_w, 0),
        lookup.comm_inv_t.at(e) == nth_coordinates::<E>(nifs.comm_inv_t, 0),
        table_at(comm_L, comm_values, comm_ts, e) == table@,
        seq![running.at(e)] == running_or_zeros(U1@.T_lookup, 1),
    ensures
        reads_fold(plain, pp, U1, U2, nifs),
        reads_table(
            lookup,
            table_at(comm_L, comm_values, comm_ts, e),
            running,
            e,
            U1,
            nifs,
            table,
        ),
        lookup_input(
            plain,
            lookup,
            table_at(comm_L, comm_values, comm_ts, e),
            running.at(e),
            e,
        ) == fold_input(pp, U1, U2, nifs, seq![table]),
{
    let polys = poly_vals(nifs.poly_lookup);
    assert(padded_poly(nifs.poly@, 6) =~= nifs.poly@);
    assert(padded_poly(polys[0], 6) =~= polys[0]);
    assert(polys =~= seq![lookup.poly_lookup.at(e)]);
    assert(or_empty(opt_coords::<E>(nifs.comm_inv_w)) =~= seq![lookup.comm_inv_w.at(e)]);
    assert(or_empty(opt_coords::<E>(nifs.comm_inv_t)) =~= seq![lookup.comm_inv_t.at(e)]);
    assert(seq![table_at(comm_L, comm_values, comm_ts, e)] =~= table_vals(seq![table]));
}

/// A circuit that reads the fold of the verifier outside of it, with lookups in several tables,
/// accepts it and yields the same instance and the same claims, table by table.
pub proof fn law_multi_table_matches_native<E: Engine>(
    pp: int,
    U1: FoldedInstance<E>,
    U2: R1CSInstance<E>,
    nifs: NIFS<E>,
    tables: Seq<LookupPayloadPublicMultiTable<E>>,
    U: FoldedInstance<E>,
    plain: FoldInput,
    lookups: AllocatedLookupNIFSMultiTable<E>,
    payloads: Seq<AllocatedLookupPayloadPublicMultiTable<E>>,
    running: Seq<AllocatedNum<E::Scalar>>,
    e: Valuation,
    comm_w: Seq<int>,
    comm_e: Seq<int>,
    out: FoldedVal,
    t_outs: Seq<int>,
)
    requires
        folded_natively(pp, U1, U2, nifs, tables, U),
        reads_fold(plain, pp, U1, U2, nifs),
        reads_tables(lookups, payloads, running, e, U1, nifs, tables),
        folds_to::<E>(
            multi_table_input(plain, lookups, payloads_at(payloads, e), nums_at(running, e), e),
            comm_w,
            comm_e,
            out,
            t_outs,
        ),
    ensures
        fold_checks::<E>(
            multi_table_input(plain, lookups, payloads_at(payloads, e), nums_at(running, e), e),
        ),
        out == (FoldedVal { comm_W: comm_w, comm_E: comm_e, ..before_renewal(U@, U1@) }),
        U@.T_lookup == Some(t_outs),
        forall|j: int, t: E::Scalar|
            0 <= j < poly_vals(nifs.poly_lookup).len() && #[trigger] claim_carried(
                E::Scalar::modulus(),
                poly_vals(nifs.poly_lookup)[j],
                fold_eq::<E>(fold_input(pp, U1, U2, nifs, tables)),
                fold_r_b::<E>(fold_input(pp, U1, U2, nifs, tables)),
                t.val(),
            ) ==> t_outs[j] == t.val(),
{
    let x = multi_table_input(plain, lookups, payloads_at(payloads, e), nums_at(running, e), e);
    assert(x == fold_input(pp, U1, U2, nifs, tables));
    law_circuit_matches_native(pp, U1, U2, nifs, tables, U, x, comm_w, comm_e, out, t_outs);
}

/// A circuit that reads the fold of the verifier outside of it, with lookups in one table that may
/// have value columns, accepts it and yields the same instance and the same claim.
pub proof fn law_multi_column_matches_native<E: Engine>(
    pp: int,
    U1: FoldedInstance<E>,
    U2: R1CSInstance<E>,
    nifs: NIFS<E>,
    table: LookupPayloadPublicMultiTable<E>,
    U: FoldedInstance<E>,
    plain: FoldInput,
    lookup: AllocatedLookupNIFS<E>,
    comm_L: AllocatedNonnativePoint<E>,
    comm_values: Seq<AllocatedNonnativePoint<E>>,
    comm_ts: AllocatedNonnativePoint<E>,
    running: AllocatedNum<E::Scalar>,
    e: Valuation,
    comm_w: Seq<int>,
    comm_e: Seq<int>,
    out: FoldedVal,
    t_out: int,
)
    requires
        folded_natively(pp, U1, U2, nifs, seq![table], U),
        reads_fold(plain, pp, U1, U2, nifs),
        reads_table(
            lookup,
            table_at(comm_L, comm_values, comm_ts, e),
            running,
            e,
            U1,
            nifs,
            table,
        ),
        folds_to::<E>(
            lookup_input(
                plain,
                lookup,
                table_at(comm_L, comm_values, comm_ts, e),
                running.at(e),
                e,
            ),
            comm_w,
            comm_e,
            out,
            seq![t_out],
        ),
    ensures
        fold_checks::<E>(
            lookup_input(
                plain,
                lookup,
                table_at(comm_L, comm_values, comm_ts, e),
                running.at(e),
                e,
            ),
        ),
        out == (FoldedVal { comm_W: comm_w, comm_E: comm_e, ..before_renewal(U@, U1@) }),
        U@.T_lookup == Some(seq![t_out]),
        forall|t: E::Scalar| #[trigger]
            claim_carried(
                E::Scalar::modulus(),
                lookup.poly_lookup.at(e),
                fold_eq::<E>(fold_input(pp, U1, U2, nifs, seq![table])),
                fold_r_b::<E>(fold_input(pp, U1, U2, nifs, seq![table])),
                t.val(),
            ) ==> t_out == t.val(),
{
    let tables = seq![table];
    let x = lookup_input(
        plain,
        lookup,
        table_at(comm_L, comm_values, comm_ts, e),
        running.at(e),
        e,
    );
    assert(x.tables =~= table_vals(tables));
    assert(x == fold_input(pp, U1, U2, nifs, tables));
    law_circuit_matches_native(pp, U1, U2, nifs, tables, U, x, comm_w, comm_e, out, seq![t_out]);
    assert(seq![t_out][0] == t_out);
}

/// The running claims of `k` tables.
pub fn running_claims<F: PrimeField>(t: &Option<Vec<F>>, k: usize) -> (r: Vec<F>)
    ensures
        vals(r@) == running_or_zeros(opt_vals(*t), k as nat),
{
    match t {
        Some(x) => copy_scalars(x),
        None => zeros(k),
    }
}

/// The message does not have one entry per table.
pub const FOLD_COUNT: &'static str = "fold: per-table count mismatch";

/// Carries the claims of the tables on.
fn carry_claims<E: Engine>(
    rho: &E::Scalar,
    r_b: &E::Scalar,
    polys: &Vec<UniPoly<E::Scalar>>,
    running: &Vec<E::Scalar>,
) -> (r: Result<Vec<E::Scalar>, NovaError>)
    requires
        polys@.len() == running@.len(),
        eq_at(E::Scalar::modulus(), rho.val(), r_b.val()) != 0,
    ensures
        r is Ok <==> forall|j: int|
            0 <= j < polys@.len() ==> claim_met(
                E::Scalar::modulus(),
                (#[trigger] polys@[j])@,
                running@[j].val(),
            ),
        r is Err ==> r == Err::<Vec<E::Scalar>, NovaError>(NovaError::InvalidSumcheckProof),
        r is Ok ==> r->Ok_0@.len() == polys@.len() && forall|j: int|
            0 <= j < polys@.len() ==> claim_carried(
                E::Scalar::modulus(),
                polys@[j]@,
                eq_at(E::Scalar::modulus(), rho.val(), r_b.val()),
                r_b.val(),
                (#[trigger] r->Ok_0@[j]).val(),
            ),
{
    let n: usize = polys.len();
    let mut r: Vec<E::Scalar> = Vec::new();
    let mut j: usize = 0;
    while j < n
        invariant
            j <= n,
            n == polys@.len(),
            n == running@.len(),
            eq_at(E::Scalar::modulus(), rho.val(), r_b.val()) != 0,
            r@.len() == j,
            forall|i: int|
                0 <= i < j ==> claim_met(
                    E::Scalar::modulus(),
                    (#[trigger] polys@[i])@,
                    running@[i].val(),
                ),
            forall|i: int|
                0 <= i < j ==> claim_carried(
                    E::Scalar::modulus(),
                    polys@[i]@,
                    eq_at(E::Scalar::modulus(), rho.val(), r_b.val()),
                    r_b.val(),
                    (#[trigger] r@[i]).val(),
                ),
        decreases n - j,
    {
        match LookupSumcheckInstance::<E>::verify_step(rho, r_b, &polys[j], &running[j]) {
            Ok(t) => {
                r.push(t);
            },
            Err(_) => {
                assert(!claim_met(E::Scalar::modulus(), polys@[j as int]@, running@[j as int].val()));
                return Err(NovaError::InvalidSumcheckProof);
            },
        }
        j = j + 1;
    }
    Ok(r)
}

impl<E: Engine> NIFS<E> {
    /// The challenges `rho` and `r_b` of the fold.
    pub fn challenges(
        &self,
        pp_digest: E::Scalar,
        U2: &R1CSInstance<E>,
        tables: &Vec<LookupPayloadPublicMultiTable<E>>,
        Ghost(U1): Ghost<FoldedInstance<E>>,
    ) -> (r: (E::Scalar, E::Scalar))
        requires
            U2.X@.len() == 1,
        ensures
            r.0.val() == fold_rho::<E>(fold_input(pp_digest.val(), U1, *U2, *self, tables@)),
            r.1.val() == fold_r_b::<E>(fold_input(pp_digest.val(), U1, *U2, *self, tables@)),
    {
        let ghost x = fold_input(pp_digest.val(), U1, *U2, *self, tables@);
        let mut ro = start_fold(pp_digest, U2, tables, Ghost(x));
        let _tau = ro.squeeze(NUM_CHALLENGE_BITS);
        let c = fold_challenges(&mut ro, &self.comm_E, tables, Ghost(x));
        let r_b = final_challenge(&mut ro, self, Ghost(x));
        (c.rho, r_b)
    }

    /// Verifies the fold of `U2` into `U1` with the lookups in the given tables and gives back
    /// the folded instance.
    pub fn verify_with_multi_table_lookup(
        &self,
        pp_digest: E::Scalar,
        U1: &FoldedInstance<E>,
        U2: &R1CSInstance<E>,
        tables: &Vec<LookupPayloadPublicMultiTable<E>>,
    ) -> (r: Result<FoldedInstance<E>, NovaError>)
        requires
            U1.X@.len() == 1,
            U2.X@.len() == 1,
        ensures
            ({
                let x = fold_input(pp_digest.val(), *U1, *U2, *self, tables@);
                &&& r is Ok <==> fold_counted(*U1, *self, tables@.len()) && fold_eq::<E>(x) != 0
                    && fold_checks::<E>(x)
                &&& r is Err ==> if !fold_counted(*U1, *self, tables@.len()) {
                    r->Err_0 is ProofVerifyError && r->Err_0->ProofVerifyError_reason@
                        == FOLD_COUNT@
                } else if fold_eq::<E>(x) == 0 {
                    r->Err_0 == NovaError::InvalidInversion
                } else {
                    r->Err_0 == NovaError::InvalidSumcheckProof
                }
                &&& r is Ok ==> folded_natively(
                    pp_digest.val(),
                    *U1,
                    *U2,
                    *self,
                    tables@,
                    r->Ok_0,
                ) && r->Ok_0.X@.len() == 1
                &&& r is Ok ==> opt_points(r->Ok_0.comm_inv_w) == opt_points(self.comm_inv_w)
                    && opt_points(r->Ok_0.comm_inv_t) == opt_points(self.comm_inv_t)
            }),
    {
        let ghost p = E::Scalar::modulus();
        let ghost x = fold_input(pp_digest.val(), *U1, *U2, *self, tables@);
        let k: usize = tables.len();
        if (k > 0 && U1.T_lookup.is_some() && count(&U1.T_lookup) != k) || count(
            &self.poly_lookup,
        ) != k || count(
            &self.comm_inv_w,
        ) != k || count(&self.comm_inv_t) != k || (k > 0 && (count(&self.comm_L_fold_per_table) != k
            || count(&self.comm_ts_fold_per_table) != k)) {
            return Err(NovaError::ProofVerifyError { reason: FOLD_COUNT.to_owned() });
        }
        let (rho, r_b) = self.challenges(pp_digest, U2, tables, Ghost(*U1));
        if eq_of(rho, r_b).same(E::Scalar::zero()) {
            return Err(NovaError::InvalidInversion);
        }
        let one = E::Scalar::one();
        let claim = U1.T.times(one.minus(rho));
        proof {
            E::Scalar::lemma_modulus();
            lemma_residue(p, 1 - rho.val());
            lemma_cong_mul(p, U1.T.val(), (1 - rho.val()) % p, U1.T.val(), 1 - rho.val());
        }
        let T = match LookupSumcheckInstance::<E>::verify_step(&rho, &r_b, &self.poly, &claim) {
            Ok(t) => t,
            Err(e) => {
                return Err(e);
            },
        };
        let ghost empty = Seq::<UniPoly<E::Scalar>>::empty();
        let T_lookup = if k > 0 {
            let running = running_claims(&U1.T_lookup, k);
            match &self.poly_lookup {
                Some(polys) => {
                    proof {
                        assert(x.polys =~= Seq::new(polys@.len(), |j: int| polys@[j]@));
                        assert(x.running == vals(running@));
                        assert(vals(running@).len() == running@.len());
                    }
                    match carry_claims::<E>(&rho, &r_b, polys, &running) {
                        Ok(t) => {
                            proof {
                                assert forall|j: int| 0 <= j < x.polys.len() implies claim_met(
                                    p,
                                    #[trigger] x.polys[j],
                                    x.running[j],
                                ) by {
                                    assert(claim_met(p, polys@[j]@, running@[j].val()));
                                }
                                assert forall|j: int| 0 <= j < x.polys.len() implies claim_carried(
                                    p,
                                    x.polys[j],
                                    fold_eq::<E>(x),
                                    r_b.val(),
                                    #[trigger] vals(t@)[j],
                                ) && 0 <= vals(t@)[j] < p by {
                                    assert(claim_carried(
                                        p,
                                        polys@[j]@,
                                        fold_eq::<E>(x),
                                        r_b.val(),
                                        t@[j].val(),
                                    ));
                                    E::Scalar::lemma_val(t@[j]);
                                }
                            }
                            Some(t)
                        },
                        Err(e) => {
                            proof {
                                let j = choose|j: int|
                                    0 <= j < polys@.len() && !claim_met(
                                        p,
                                        (#[trigger] polys@[j])@,
                                        running@[j].val(),
                                    );
                                assert(!claim_met(p, x.polys[j], x.running[j]));
                            }
                            return Err(e);
                        },
                    }
                },
                None => {
                    return Err(NovaError::InvalidSumcheckProof);
                },
            }
        } else {
            match &U1.T_lookup {
                Some(v) => Some(copy_scalars(v)),
                None => None,
            }
        };
        let mut X: Vec<E::Scalar> = Vec::new();
        X.push(line_at(U1.X[0], U2.X[0], r_b));
        let U = FoldedInstance {
            comm_W: point_between::<E>(U1.comm_W, U2.comm_W, r_b),
            comm_E: point_between::<E>(U1.comm_E, self.comm_E, r_b),
            T,
            u: line_at(U1.u, one, r_b),
            X,
            comm_L: if k > 0 {
                copy_opt_points::<E>(&self.comm_L_fold_per_table)
            } else {
                copy_opt_points::<E>(&U1.comm_L)
            },
            comm_ts: if k > 0 {
                copy_opt_points::<E>(&self.comm_ts_fold_per_table)
            } else {
                copy_opt_points::<E>(&U1.comm_ts)
            },
            comm_inv_w: copy_opt_points::<E>(&self.comm_inv_w),
            comm_inv_t: copy_opt_points::<E>(&self.comm_inv_t),
            T_lookup,
        };
        proof {
            let out = before_renewal(U@, U1@);
            E::Scalar::lemma_val(T);
            assert(vals(U.X@) =~= seq![line(p, U1@.X[0], x.U2.X, r_b.val())]);
            assert(out == fold_val(p, U1@, x.U2.X, r_b.val(), out.T, U@.comm_W, U@.comm_E));
            if k == 0 {
                assert(x.polys.len() == 0);
                assert(opt_vals(U.T_lookup) == opt_vals(U1.T_lookup));
            } else {
                assert(carried_claims(U@, k as nat) == vals(U.T_lookup->Some_0@));
            }
        }
        Ok(U)
    }
}

/// A message has one entry for each of `k` tables everywhere exactly if the polynomials and the
/// commitments to the inverses are `k`, none being missing where there are tables, and so are the
/// folded commitments and the running claims, if there are any yet.
pub proof fn law_counted_exactly<E: Engine>(U1: FoldedInstance<E>, nifs: NIFS<E>, k: nat)
    requires
        k > 0,
    ensures
        fold_counted(U1, nifs, k) <==> {
            &&& U1.T_lookup is Some ==> U1.T_lookup->Some_0@.len() == k
            &&& nifs.poly_lookup is Some && nifs.poly_lookup->Some_0@.len() == k
            &&& nifs.comm_inv_w is Some && nifs.comm_inv_w->Some_0@.len() == k
            &&& nifs.comm_inv_t is Some && nifs.comm_inv_t->Some_0@.len() == k
            &&& nifs.comm_L_fold_per_table is Some && nifs.comm_L_fold_per_table->Some_0@.len()
                == k
            &&& nifs.comm_ts_fold_per_table is Some && nifs.comm_ts_fold_per_table->Some_0@.len()
                == k
        },
{
}

} // verus!
