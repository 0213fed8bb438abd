//! The lookups that a step adds, table by table, and their part in a fold.

use crate::challenges::{law_table_challenges_follow, law_with_columns_sum};
use crate::circuit::nifs::{fold_rho, rho_log, with_columns, FoldInput};
use crate::circuit::relation::line;
use crate::columns::{
    address_column, addresses, columns_fit, combine_columns, combine_points, combined,
    combined_point, have_length, law_combined_commitment, law_combined_sum, MultiColumnLookupTable,
};
use crate::commitment::{copy_points, copy_scalars, logs, CommitmentKey};
use crate::compressed_snark::closing::vecs;
use crate::engine::{Engine, Group, RoItem};
use crate::errors::NovaError;
use crate::field::{lemma_cong_add, lemma_reduced, lemma_residue, PrimeField};
use crate::linear::{law_commitment_between, point_between, scalars_between};
use crate::lookup_sumcheck::{
    inverted_plus_r, invertible_plus_r, quotients_plus_r, LookupSumcheckInstance,
};
use crate::nifs::{fold_gamma, fold_r, FoldChallenges};
use crate::poly::{claim_met, vals, UniPoly};
use crate::relation::{LookupPayloadPublicMultiTable, LookupRunningWitness, TableVal};
use crate::side::{between, law_between_mixes, round_poly};
use crate::sums::{lemma_sum_same, sum};
use vstd::arithmetic::power::pow;
use vstd::prelude::*;

verus! {

/// The commitments of the lookups of a step in one table.
pub struct LookupPayload<E: Engine> {
    pub comm_L: E::GE,
    pub comm_ts: E::GE,
    pub comm_inv_w: E::GE,
    pub comm_inv_t: E::GE,
    pub T2_lookup: E::Scalar,
    pub comm_values: Vec<E::GE>,
}

/// The lookups of a step in one table, and what was folded there before.
pub struct PerTableBundle<E: Engine> {
    pub table_id: u64,
    pub payload: LookupPayload<E>,
    pub fresh_witness_address: Vec<E::Scalar>,
    pub fresh_witness_value_columns: Vec<Vec<E::Scalar>>,
    pub fresh_multiplicities: Vec<E::Scalar>,
    pub fresh_eq_w_left: Vec<E::Scalar>,
    pub fresh_eq_w_right: Vec<E::Scalar>,
    pub fresh_eq_t_left: Vec<E::Scalar>,
    pub fresh_eq_t_right: Vec<E::Scalar>,
    pub running_lw: LookupRunningWitness<E>,
}

/// The public side is that of the bundles.
pub open spec fn public_of<E: Engine>(
    tables: Seq<LookupPayloadPublicMultiTable<E>>,
    bundles: Seq<PerTableBundle<E>>,
) -> bool {
    &&& tables.len() == bundles.len()
    &&& forall|j: int|
        0 <= j < bundles.len() ==> {
            &&& (#[trigger] tables[j]).table_id == bundles[j].table_id
            &&& tables[j].comm_L == bundles[j].payload.comm_L
            &&& tables[j].comm_ts == bundles[j].payload.comm_ts
            &&& tables[j].comm_values@ == bundles[j].payload.comm_values@
        }
}

/// The public side of the bundles.
pub fn public_bundles<E: Engine>(bundles: &Vec<PerTableBundle<E>>) -> (r: Vec<
    LookupPayloadPublicMultiTable<E>,
>)
    ensures
        public_of(r@, bundles@),
{
    let n: usize = bundles.len();
    let mut r: Vec<LookupPayloadPublicMultiTable<E>> = Vec::new();
    let mut j: usize = 0;
    while j < n
        invariant
            j <= n,
            n == bundles@.len(),
            public_of(r@, bundles@.take(j as int)),
            r@.len() == j,
        decreases n - j,
    {
        let ghost before = r@;
        let b = &bundles[j];
        r.push(
            LookupPayloadPublicMultiTable {
                table_id: b.table_id,
                comm_L: b.payload.comm_L,
                comm_values: copy_points::<E>(&b.payload.comm_values),
                comm_ts: b.payload.comm_ts,
            },
        );
        proof {
            assert forall|i: int| 0 <= i < j + 1 implies {
                &&& (#[trigger] r@[i]).table_id == bundles@.take(j as int + 1)[i].table_id
                &&& r@[i].comm_L == bundles@.take(j as int + 1)[i].payload.comm_L
                &&& r@[i].comm_ts == bundles@.take(j as int + 1)[i].payload.comm_ts
                &&& r@[i].comm_values@ == bundles@.take(j as int + 1)[i].payload.comm_values@
            } by {
                if i < j {
                    assert(r@[i] == before[i]);
                    assert(bundles@.take(j as int)[i] == bundles@.take(j as int + 1)[i]);
                }
            }
        }
        j = j + 1;
    }
    assert(bundles@.take(n as int) =~= bundles@);
    r
}

/// The vectors of a bundle fit to each other, to the table and to a key of length `m`.
pub open spec fn bundle_fits<E: Engine>(
    b: PerTableBundle<E>,
    table: MultiColumnLookupTable<E>,
    m: nat,
) -> bool {
    let n = b.fresh_witness_address@.len();
    let s = table.size as nat;
    let lw = b.running_lw;
    &&& n == b.fresh_eq_w_left@.len() * b.fresh_eq_w_right@.len()
    &&& s == b.fresh_eq_t_left@.len() * b.fresh_eq_t_right@.len()
    &&& b.fresh_multiplicities@.len() == s
    &&& lw.witness@.len() == n
    &&& lw.inv_w@.len() == n
    &&& lw.table@.len() == s
    &&& lw.multiplicities@.len() == s
    &&& lw.inv_t@.len() == s
    &&& lw.eq_w_left@.len() == b.fresh_eq_w_left@.len()
    &&& lw.eq_w_right@.len() == b.fresh_eq_w_right@.len()
    &&& lw.eq_t_left@.len() == b.fresh_eq_t_left@.len()
    &&& lw.eq_t_right@.len() == b.fresh_eq_t_right@.len()
    &&& b.fresh_witness_value_columns@.len() == b.payload.comm_values@.len()
    &&& table.columns@.len() == b.payload.comm_values@.len()
    &&& columns_fit(vecs(b.fresh_witness_value_columns@), n)
    &&& columns_fit(vecs(table.columns@), s)
    &&& n <= m
    &&& s <= m
}

/// Whether a product of lengths is the given number.
fn is_product(n: usize, a: usize, b: usize) -> (r: bool)
    ensures
        r == (n == a * b),
{
    match a.checked_mul(b) {
        Some(x) => x == n,
        None => false,
    }
}

/// Whether the vectors of a bundle fit.
pub fn fits_bundle<E: Engine>(
    b: &PerTableBundle<E>,
    table: &MultiColumnLookupTable<E>,
    m: usize,
) -> (r: bool)
    ensures
        r == bundle_fits(*b, *table, m as nat),
{
    let n: usize = b.fresh_witness_address.len();
    let s: usize = table.size;
    let lw = &b.running_lw;
    let k: usize = b.payload.comm_values.len();
    is_product(n, b.fresh_eq_w_left.len(), b.fresh_eq_w_right.len()) && is_product(
        s,
        b.fresh_eq_t_left.len(),
        b.fresh_eq_t_right.len(),
    ) && b.fresh_multiplicities.len() == s && lw.witness.len() == n && lw.inv_w.len() == n
        && lw.table.len() == s && lw.multiplicities.len() == s && lw.inv_t.len() == s
        && lw.eq_w_left.len() == b.fresh_eq_w_left.len() && lw.eq_w_right.len()
        == b.fresh_eq_w_right.len() && lw.eq_t_left.len() == b.fresh_eq_t_left.len()
        && lw.eq_t_right.len() == b.fresh_eq_t_right.len() && b.fresh_witness_value_columns.len()
        == k && table.columns.len() == k && have_length(&b.fresh_witness_value_columns, n)
        && have_length(&table.columns, s) && n <= m && s <= m
}

/// The vectors of all bundles fit.
pub open spec fn bundles_fit<E: Engine>(
    bundles: Seq<PerTableBundle<E>>,
    tables: Seq<MultiColumnLookupTable<E>>,
    m: nat,
) -> bool {
    &&& tables.len() >= bundles.len()
    &&& forall|j: int|
        0 <= j < bundles.len() ==> bundle_fits(#[trigger] bundles[j], tables[j], m)
}

/// Whether the vectors of all bundles fit.
pub fn fits_bundles<E: Engine>(
    bundles: &Vec<PerTableBundle<E>>,
    tables: &Vec<MultiColumnLookupTable<E>>,
    m: usize,
) -> (r: bool)
    ensures
        r == bundles_fit(bundles@, tables@, m as nat),
{
    let n: usize = bundles.len();
    if tables.len() < n {
        return false;
    }
    let mut j: usize = 0;
    while j < n
        invariant
            j <= n,
            n == bundles@.len(),
            n <= tables@.len(),
            forall|i: int|
                0 <= i < j ==> bundle_fits(#[trigger] bundles@[i], tables@[i], m as nat),
        decreases n - j,
    {
        if !fits_bundle(&bundles[j], &tables[j], m) {
            assert(!bundle_fits(bundles@[j as int], tables@[j as int], m as nat));
            return false;
        }
        j = j + 1;
    }
    true
}

/// The lookups of a step in one table, combined into one column.
pub open spec fn fresh_lookups<E: Engine>(b: PerTableBundle<E>, gamma: int) -> Seq<int> {
    combined(
        E::Scalar::modulus(),
        vals(b.fresh_witness_address@),
        vecs(b.fresh_witness_value_columns@),
        gamma,
    )
}

/// The table, combined into one column.
pub open spec fn table_column<E: Engine>(t: MultiColumnLookupTable<E>, gamma: int) -> Seq<int> {
    combined(
        E::Scalar::modulus(),
        addresses(E::Scalar::modulus(), t.size as nat),
        vecs(t.columns@),
        gamma,
    )
}

/// The lookups have inverses under the challenge `r`.
pub open spec fn table_invertible<E: Engine>(
    b: PerTableBundle<E>,
    t: MultiColumnLookupTable<E>,
    gamma: int,
    r: int,
) -> bool {
    &&& invertible_plus_r(E::Scalar::modulus(), fresh_lookups(b, gamma), r)
    &&& invertible_plus_r(E::Scalar::modulus(), table_column(t, gamma), r)
}

/// The instance is that of a bundle and its table under the challenges.
pub open spec fn instance_of<E: Engine>(
    inst: LookupSumcheckInstance<E>,
    b: PerTableBundle<E>,
    t: MultiColumnLookupTable<E>,
    gamma: int,
    r: int,
) -> bool {
    let lw = b.running_lw;
    &&& inst.wf()
    &&& inst.r.val() == r
    &&& inst.w1_poly.Z@ == lw.witness@
    &&& inst.inv_w1_poly.Z@ == lw.inv_w@
    &&& inst.t1_poly.Z@ == lw.table@
    &&& inst.ts1_poly.Z@ == lw.multiplicities@
    &&& inst.inv_t1_poly.Z@ == lw.inv_t@
    &&& inst.eq_w1_left@ == lw.eq_w_left@
    &&& inst.eq_w1_right@ == lw.eq_w_right@
    &&& inst.eq_t1_left@ == lw.eq_t_left@
    &&& inst.eq_t1_right@ == lw.eq_t_right@
    &&& vals(inst.w2_poly.Z@) == fresh_lookups(b, gamma)
    &&& vals(inst.t2_poly.Z@) == table_column(t, gamma)
    &&& inst.ts2_poly.Z@ == b.fresh_multiplicities@
    &&& inst.eq_w2_left@ == b.fresh_eq_w_left@
    &&& inst.eq_w2_right@ == b.fresh_eq_w_right@
    &&& inst.eq_t2_left@ == b.fresh_eq_t_left@
    &&& inst.eq_t2_right@ == b.fresh_eq_t_right@
}

/// An instance takes up true inverses of the lookups folded in, and the commitments are those to
/// these, without blinding.
pub open spec fn inverses_committed<E: Engine>(
    ck: CommitmentKey<E>,
    inst: LookupSumcheckInstance<E>,
    comm_w: int,
    comm_t: int,
) -> bool {
    &&& inverted_plus_r(
        E::Scalar::modulus(),
        vals(inst.w2_poly.Z@),
        inst.r.val(),
        vals(inst.inv_w2_poly.Z@),
    )
    &&& quotients_plus_r(
        E::Scalar::modulus(),
        vals(inst.t2_poly.Z@),
        vals(inst.ts2_poly.Z@),
        inst.r.val(),
        vals(inst.inv_t2_poly.Z@),
    )
    &&& comm_w == ck.commitment(vals(inst.inv_w2_poly.Z@), 0)
    &&& comm_t == ck.commitment(vals(inst.inv_t2_poly.Z@), 0)
}

/// The instance of a bundle and its table; an error where an inverse is missing.
fn table_instance<E: Engine>(
    ck: &CommitmentKey<E>,
    b: &PerTableBundle<E>,
    t: &MultiColumnLookupTable<E>,
    gamma: E::Scalar,
    r: E::Scalar,
) -> (res: Result<(LookupSumcheckInstance<E>, E::GE, E::GE), NovaError>)
    requires
        bundle_fits(*b, *t, ck.ck@.len()),
    ensures
        res is Ok <==> table_invertible(*b, *t, gamma.val(), r.val()),
        res is Err ==> res->Err_0 == NovaError::InvalidInversion,
        res is Ok ==> instance_of(res->Ok_0.0, *b, *t, gamma.val(), r.val()),
        res is Ok ==> inverses_committed(
            *ck,
            res->Ok_0.0,
            res->Ok_0.1.log(),
            res->Ok_0.2.log(),
        ),
{
    let lw = &b.running_lw;
    let w2 = combine_columns(&b.fresh_witness_address, &b.fresh_witness_value_columns, gamma);
    let addr = address_column::<E::Scalar>(t.size);
    let t2 = combine_columns(&addr, &t.columns, gamma);
    LookupSumcheckInstance::new(
        ck,
        &lw.witness,
        &lw.inv_w,
        &lw.table,
        &lw.multiplicities,
        &lw.inv_t,
        copy_scalars(&lw.eq_w_left),
        copy_scalars(&lw.eq_w_right),
        copy_scalars(&lw.eq_t_left),
        copy_scalars(&lw.eq_t_right),
        &w2,
        &t2,
        &b.fresh_multiplicities,
        copy_scalars(&b.fresh_eq_w_left),
        copy_scalars(&b.fresh_eq_w_right),
        copy_scalars(&b.fresh_eq_t_left),
        copy_scalars(&b.fresh_eq_t_right),
        r,
    )
}

/// The challenge that combines the columns of table `j`; zero where it has none.
pub open spec fn table_gamma<E: Engine>(x: FoldInput, j: int) -> int {
    if x.tables[j].comm_values.len() > 0 {
        fold_gamma::<E>(x, with_columns(x.tables.take(j)))
    } else {
        0
    }
}

/// What the prover has to say on the tables.
pub struct TableMessages<E: Engine> {
    pub instances: Vec<LookupSumcheckInstance<E>>,
    pub gammas: Vec<E::Scalar>,
    pub polys: Vec<UniPoly<E::Scalar>>,
    pub inv_w: Vec<E::GE>,
    pub inv_t: Vec<E::GE>,
}

/// What the prover says on one table.
pub open spec fn said<E: Engine>(
    inst: LookupSumcheckInstance<E>,
    gamma: int,
    poly: Seq<int>,
    b: PerTableBundle<E>,
    t: MultiColumnLookupTable<E>,
    r: int,
    rho: int,
    running: int,
) -> bool {
    &&& instance_of(inst, b, t, gamma, r)
    &&& round_poly(E::Scalar::modulus(), poly, |y: int| inst.claim_at(y), rho, running)
    &&& claim_met(E::Scalar::modulus(), poly, running)
}

/// What the prover says on table `j`.
pub open spec fn table_said<E: Engine>(
    m: TableMessages<E>,
    x: FoldInput,
    bundles: Seq<PerTableBundle<E>>,
    tables: Seq<MultiColumnLookupTable<E>>,
    running: Seq<int>,
    j: int,
) -> bool {
    &&& m.gammas@[j].val() == table_gamma::<E>(x, j)
    &&& said(
        m.instances@[j],
        table_gamma::<E>(x, j),
        m.polys@[j]@,
        bundles[j],
        tables[j],
        fold_r::<E>(x, j as nat),
        fold_rho::<E>(x),
        running[j],
    )
}

/// What the prover has to say on one table.
fn prove_table<E: Engine>(
    ck: &CommitmentKey<E>,
    b: &PerTableBundle<E>,
    t: &MultiColumnLookupTable<E>,
    gamma: E::Scalar,
    r: E::Scalar,
    rho: &E::Scalar,
    running: &E::Scalar,
) -> (res: Result<(LookupSumcheckInstance<E>, UniPoly<E::Scalar>, E::GE, E::GE), NovaError>)
    requires
        bundle_fits(*b, *t, ck.ck@.len()),
    ensures
        res is Ok <==> table_invertible(*b, *t, gamma.val(), r.val()),
        res is Err ==> res->Err_0 == NovaError::InvalidInversion,
        res is Ok ==> said(
            res->Ok_0.0,
            gamma.val(),
            res->Ok_0.1@,
            *b,
            *t,
            r.val(),
            rho.val(),
            running.val(),
        ),
        res is Ok ==> inverses_committed(
            *ck,
            res->Ok_0.0,
            res->Ok_0.2.log(),
            res->Ok_0.3.log(),
        ),
{
    match table_instance(ck, b, t, gamma, r) {
        Ok((inst, w, t)) => {
            let poly = inst.prove_step(rho, running);
            Ok((inst, poly, w, t))
        },
        Err(e) => Err(e),
    }
}

/// How many of the first tables have columns is at most how many have.
proof fn lemma_columns_prefix(s: Seq<TableVal>, j: int)
    requires
        0 <= j < s.len(),
    ensures
        with_columns(s.take(j)) <= with_columns(s),
        s[j].comm_values.len() > 0 ==> with_columns(s.take(j)) < with_columns(s),
        with_columns(s.take(j + 1)) == with_columns(s.take(j)) + if s[j].comm_values.len() > 0 {
            1nat
        } else {
            0nat
        },
    decreases s.len(),
{
    assert(s.take(j + 1).drop_last() =~= s.take(j));
    if j == s.len() - 1 {
        assert(s.take(j) =~= s.drop_last());
    } else {
        lemma_columns_prefix(s.drop_last(), j);
        assert(s.drop_last().take(j) =~= s.take(j));
        assert(s.drop_last()[j] == s[j]);
    }
}

/// What the prover has to say on the tables; an error where an inverse is missing.
#[verifier::rlimit(60)]
#[verifier::spinoff_prover]
pub fn prove_tables<E: Engine>(
    ck: &CommitmentKey<E>,
    bundles: &Vec<PerTableBundle<E>>,
    tables: &Vec<MultiColumnLookupTable<E>>,
    c: &FoldChallenges<E>,
    running: &Vec<E::Scalar>,
    Ghost(x): Ghost<FoldInput>,
) -> (res: Result<TableMessages<E>, NovaError>)
    requires
        bundles_fit(bundles@, tables@, ck.ck@.len()),
        x.tables.len() == bundles@.len(),
        forall|j: int|
            0 <= j < bundles@.len() ==> (#[trigger] x.tables[j]).comm_values.len()
                == bundles@[j].payload.comm_values@.len(),
        c.rho.val() == fold_rho::<E>(x),
        c.gammas@.len() == with_columns(x.tables),
        c.rs@.len() == bundles@.len(),
        forall|i: int|
            0 <= i < c.gammas@.len() ==> (#[trigger] c.gammas@[i]).val() == fold_gamma::<E>(
                x,
                i as nat,
            ),
        forall|j: int|
            0 <= j < c.rs@.len() ==> (#[trigger] c.rs@[j]).val() == fold_r::<E>(x, j as nat),
        running@.len() == bundles@.len(),
    ensures
        res is Ok <==> forall|j: int|
            0 <= j < bundles@.len() ==> table_invertible(
                #[trigger] bundles@[j],
                tables@[j],
                table_gamma::<E>(x, j),
                fold_r::<E>(x, j as nat),
            ),
        res is Err ==> res->Err_0 == NovaError::InvalidInversion,
        res is Ok ==> {
            let m = res->Ok_0;
            let k = bundles@.len();
            &&& m.instances@.len() == k
            &&& m.gammas@.len() == k
            &&& m.polys@.len() == k
            &&& m.inv_w@.len() == k
            &&& m.inv_t@.len() == k
            &&& forall|j: int|
                0 <= j < k ==> #[trigger] table_said(m, x, bundles@, tables@, vals(running@), j)
            &&& forall|j: int|
                0 <= j < k ==> inverses_committed(
                    *ck,
                    #[trigger] m.instances@[j],
                    m.inv_w@[j].log(),
                    m.inv_t@[j].log(),
                )
        },
{
    let k: usize = bundles.len();
    let columns: usize = c.gammas.len();
    let mut instances: Vec<LookupSumcheckInstance<E>> = Vec::new();
    let mut gammas: Vec<E::Scalar> = Vec::new();
    let mut polys: Vec<UniPoly<E::Scalar>> = Vec::new();
    let mut inv_w: Vec<E::GE> = Vec::new();
    let mut inv_t: Vec<E::GE> = Vec::new();
    let mut next: usize = 0;
    let mut j: usize = 0;
    assert(x.tables.take(0) =~= Seq::<TableVal>::empty());
    while j < k
        invariant
            j <= k,
            k == bundles@.len(),
            columns == c.gammas@.len(),
            bundles_fit(bundles@, tables@, ck.ck@.len()),
            x.tables.len() == k,
            forall|i: int|
                0 <= i < bundles@.len() ==> (#[trigger] x.tables[i]).comm_values.len()
                    == bundles@[i].payload.comm_values@.len(),
            c.rho.val() == fold_rho::<E>(x),
            columns == with_columns(x.tables),
            c.rs@.len() == k,
            forall|i: int|
                0 <= i < c.gammas@.len() ==> (#[trigger] c.gammas@[i]).val() == fold_gamma::<E>(
                    x,
                    i as nat,
                ),
            forall|i: int|
                0 <= i < c.rs@.len() ==> (#[trigger] c.rs@[i]).val() == fold_r::<E>(x, i as nat),
            running@.len() == k,
            next == with_columns(x.tables.take(j as int)),
            instances@.len() == j,
            gammas@.len() == j,
            polys@.len() == j,
            inv_w@.len() == j,
            inv_t@.len() == j,
            forall|i: int|
                0 <= i < j ==> table_invertible(
                    #[trigger] bundles@[i],
                    tables@[i],
                    table_gamma::<E>(x, i),
                    fold_r::<E>(x, i as nat),
                ),
            forall|i: int|
                0 <= i < j ==> (#[trigger] gammas@[i]).val() == table_gamma::<E>(x, i),
            forall|i: int|
                0 <= i < j ==> said(
                    #[trigger] instances@[i],
                    table_gamma::<E>(x, i),
                    polys@[i]@,
                    bundles@[i],
                    tables@[i],
                    fold_r::<E>(x, i as nat),
                    fold_rho::<E>(x),
                    running@[i].val(),
                ),
            forall|i: int|
                0 <= i < j ==> inverses_committed(
                    *ck,
                    #[trigger] instances@[i],
                    inv_w@[i].log(),
                    inv_t@[i].log(),
                ),
        decreases k - j,
    {
        proof {
            lemma_columns_prefix(x.tables, j as int);
            assert(bundle_fits(bundles@[j as int], tables@[j as int], ck.ck@.len()));
            assert(x.tables[j as int].comm_values.len()
                == bundles@[j as int].payload.comm_values@.len());
        }
        let b = &bundles[j];
        let gamma = if b.payload.comm_values.len() > 0 {
            let g = c.gammas[next];
            next = next + 1;
            g
        } else {
            E::Scalar::zero()
        };
        let (inst, poly, w, t) = match prove_table(
            ck,
            b,
            &tables[j],
            gamma,
            c.rs[j],
            &c.rho,
            &running[j],
        ) {
            Ok(v) => v,
            Err(e) => {
                assert(!table_invertible(
                    bundles@[j as int],
                    tables@[j as int],
                    table_gamma::<E>(x, j as int),
                    fold_r::<E>(x, j as nat),
                ));
                return Err(e);
            },
        };
        let ghost instances0 = instances@;
        let ghost polys0 = polys@;
        let ghost gammas0 = gammas@;
        let ghost inv_w0 = inv_w@;
        let ghost inv_t0 = inv_t@;
        instances.push(inst);
        gammas.push(gamma);
        polys.push(poly);
        inv_w.push(w);
        inv_t.push(t);
        proof {
            assert forall|i: int| 0 <= i < j + 1 implies said(
                #[trigger] instances@[i],
                table_gamma::<E>(x, i),
                polys@[i]@,
                bundles@[i],
                tables@[i],
                fold_r::<E>(x, i as nat),
                fold_rho::<E>(x),
                running@[i].val(),
            ) by {
                if i < j {
                    assert(instances@[i] == instances0[i]);
                    assert(polys@[i] == polys0[i]);
                }
            }
            assert forall|i: int| 0 <= i < j + 1 implies inverses_committed(
                *ck,
                #[trigger] instances@[i],
                inv_w@[i].log(),
                inv_t@[i].log(),
            ) by {
                if i < j {
                    assert(instances@[i] == instances0[i]);
                    assert(inv_w@[i] == inv_w0[i] && inv_t@[i] == inv_t0[i]);
                }
            }
            assert forall|i: int| 0 <= i < j + 1 implies (#[trigger] gammas@[i]).val()
                == table_gamma::<E>(x, i) by {
                if i < j {
                    assert(gammas@[i] == gammas0[i]);
                }
            }
        }
        j = j + 1;
    }
    let m = TableMessages { instances, gammas, polys, inv_w, inv_t };
    proof {
        assert forall|i: int| 0 <= i < k implies #[trigger] table_said(
            m,
            x,
            bundles@,
            tables@,
            vals(running@),
            i,
        ) by {
            assert(m.gammas@[i].val() == table_gamma::<E>(x, i));
            assert(m.instances@[i] == instances@[i]);
        }
    }
    Ok(m)
}

/// The running witness is that between the two parts of an instance.
pub open spec fn running_between<E: Engine>(
    inst: LookupSumcheckInstance<E>,
    x: int,
    lw: LookupRunningWitness<E>,
) -> bool {
    let p = E::Scalar::modulus();
    &&& vals(lw.witness@) == between(p, vals(inst.w1_poly.Z@), vals(inst.w2_poly.Z@), x)
    &&& vals(lw.inv_w@) == between(p, vals(inst.inv_w1_poly.Z@), vals(inst.inv_w2_poly.Z@), x)
    &&& vals(lw.table@) == between(p, vals(inst.t1_poly.Z@), vals(inst.t2_poly.Z@), x)
    &&& vals(lw.multiplicities@) == between(p, vals(inst.ts1_poly.Z@), vals(inst.ts2_poly.Z@), x)
    &&& vals(lw.inv_t@) == between(p, vals(inst.inv_t1_poly.Z@), vals(inst.inv_t2_poly.Z@), x)
    &&& vals(lw.eq_w_left@) == between(p, vals(inst.eq_w1_left@), vals(inst.eq_w2_left@), x)
    &&& vals(lw.eq_w_right@) == between(p, vals(inst.eq_w1_right@), vals(inst.eq_w2_right@), x)
    &&& vals(lw.eq_t_left@) == between(p, vals(inst.eq_t1_left@), vals(inst.eq_t2_left@), x)
    &&& vals(lw.eq_t_right@) == between(p, vals(inst.eq_t1_right@), vals(inst.eq_t2_right@), x)
}

/// The running witness between the two parts of an instance.
fn fold_running<E: Engine>(inst: &LookupSumcheckInstance<E>, x: E::Scalar) -> (lw:
    LookupRunningWitness<E>)
    requires
        inst.wf(),
    ensures
        running_between(*inst, x.val(), lw),
{
    proof {
        assert(inst.w1().inv.len() == inst.w2().inv.len());
        assert(inst.t1().inv.len() == inst.t2().inv.len());
        assert(inst.w1().inv.len() == inst.inv_w1_poly.Z@.len());
        assert(inst.w2().inv.len() == inst.inv_w2_poly.Z@.len());
        assert(inst.t1().inv.len() == inst.inv_t1_poly.Z@.len());
        assert(inst.t2().inv.len() == inst.inv_t2_poly.Z@.len());
        assert(inst.w1().base.len() == inst.w1_poly.Z@.len());
        assert(inst.w2().base.len() == inst.w2_poly.Z@.len());
        assert(inst.t1().base.len() == inst.t1_poly.Z@.len());
        assert(inst.t2().base.len() == inst.t2_poly.Z@.len());
        assert(inst.t1().num.len() == inst.ts1_poly.Z@.len());
        assert(inst.t2().num.len() == inst.ts2_poly.Z@.len());
        assert(inst.w1().eq_left.len() == inst.eq_w1_left@.len());
        assert(inst.w2().eq_left.len() == inst.eq_w2_left@.len());
        assert(inst.w1().eq_right.len() == inst.eq_w1_right@.len());
        assert(inst.w2().eq_right.len() == inst.eq_w2_right@.len());
        assert(inst.t1().eq_left.len() == inst.eq_t1_left@.len());
        assert(inst.t2().eq_left.len() == inst.eq_t2_left@.len());
        assert(inst.t1().eq_right.len() == inst.eq_t1_right@.len());
        assert(inst.t2().eq_right.len() == inst.eq_t2_right@.len());
    }
    LookupRunningWitness {
        witness: scalars_between(&inst.w1_poly.Z, &inst.w2_poly.Z, x),
        inv_w: scalars_between(&inst.inv_w1_poly.Z, &inst.inv_w2_poly.Z, x),
        table: scalars_between(&inst.t1_poly.Z, &inst.t2_poly.Z, x),
        multiplicities: scalars_between(&inst.ts1_poly.Z, &inst.ts2_poly.Z, x),
        inv_t: scalars_between(&inst.inv_t1_poly.Z, &inst.inv_t2_poly.Z, x),
        eq_w_left: scalars_between(&inst.eq_w1_left, &inst.eq_w2_left, x),
        eq_w_right: scalars_between(&inst.eq_w1_right, &inst.eq_w2_right, x),
        eq_t_left: scalars_between(&inst.eq_t1_left, &inst.eq_t2_left, x),
        eq_t_right: scalars_between(&inst.eq_t1_right, &inst.eq_t2_right, x),
    }
}

/// What the tables fold to: the running witnesses, and the commitments to their lookups and
/// multiplicities.
pub struct FoldedTables<E: Engine> {
    pub lws: Vec<LookupRunningWitness<E>>,
    pub comm_L: Vec<E::GE>,
    pub comm_ts: Vec<E::GE>,
}

/// What table `j` folds to at `x`.
pub open spec fn table_folded<E: Engine>(
    f: FoldedTables<E>,
    m: TableMessages<E>,
    bundles: Seq<PerTableBundle<E>>,
    comm_L: Seq<E::GE>,
    comm_ts: Seq<E::GE>,
    x: int,
    j: int,
) -> bool {
    let p = E::Scalar::modulus();
    let b = bundles[j].payload;
    &&& running_between(m.instances@[j], x, f.lws@[j])
    &&& f.comm_L@[j].log() == line(
        p,
        comm_L[j].log(),
        combined_point(p, b.comm_L.log(), logs::<E>(b.comm_values@), m.gammas@[j].val()),
        x,
    )
    &&& f.comm_ts@[j].log() == line(p, comm_ts[j].log(), b.comm_ts.log(), x)
}

/// Folds the tables at `x`.
pub fn fold_tables<E: Engine>(
    m: &TableMessages<E>,
    bundles: &Vec<PerTableBundle<E>>,
    comm_L: &Vec<E::GE>,
    comm_ts: &Vec<E::GE>,
    x: E::Scalar,
) -> (f: FoldedTables<E>)
    requires
        m.instances@.len() == bundles@.len(),
        m.gammas@.len() == bundles@.len(),
        comm_L@.len() == bundles@.len(),
        comm_ts@.len() == bundles@.len(),
        forall|j: int| 0 <= j < bundles@.len() ==> (#[trigger] m.instances@[j]).wf(),
    ensures
        f.lws@.len() == bundles@.len(),
        f.comm_L@.len() == bundles@.len(),
        f.comm_ts@.len() == bundles@.len(),
        forall|j: int|
            0 <= j < bundles@.len() ==> #[trigger] table_folded(
                f,
                *m,
                bundles@,
                comm_L@,
                comm_ts@,
                x.val(),
                j,
            ),
{
    let ghost p = E::Scalar::modulus();
    let k: usize = bundles.len();
    let mut lws: Vec<LookupRunningWitness<E>> = Vec::new();
    let mut out_L: Vec<E::GE> = Vec::new();
    let mut out_ts: Vec<E::GE> = Vec::new();
    let mut j: usize = 0;
    while j < k
        invariant
            j <= k,
            k == bundles@.len(),
            p == E::Scalar::modulus(),
            m.instances@.len() == k,
            m.gammas@.len() == k,
            comm_L@.len() == k,
            comm_ts@.len() == k,
            forall|i: int| 0 <= i < k ==> (#[trigger] m.instances@[i]).wf(),
            lws@.len() == j,
            out_L@.len() == j,
            out_ts@.len() == j,
            forall|i: int|
                0 <= i < j ==> running_between(m.instances@[i], x.val(), #[trigger] lws@[i]),
            forall|i: int|
                0 <= i < j ==> (#[trigger] out_L@[i]).log() == line(
                    p,
                    comm_L@[i].log(),
                    combined_point(
                        p,
                        bundles@[i].payload.comm_L.log(),
                        logs::<E>(bundles@[i].payload.comm_values@),
                        m.gammas@[i].val(),
                    ),
                    x.val(),
                ),
            forall|i: int|
                0 <= i < j ==> (#[trigger] out_ts@[i]).log() == line(
                    p,
                    comm_ts@[i].log(),
                    bundles@[i].payload.comm_ts.log(),
                    x.val(),
                ),
        decreases k - j,
    {
        let b = &bundles[j].payload;
        assert(m.instances@[j as int].wf());
        lws.push(fold_running(&m.instances[j], x));
        let fresh = combine_points::<E>(b.comm_L, &b.comm_values, m.gammas[j]);
        out_L.push(point_between::<E>(comm_L[j], fresh, x));
        out_ts.push(point_between::<E>(comm_ts[j], b.comm_ts, x));
        j = j + 1;
    }
    let f = FoldedTables { lws, comm_L: out_L, comm_ts: out_ts };
    proof {
        assert forall|i: int| 0 <= i < k implies #[trigger] table_folded(
            f,
            *m,
            bundles@,
            comm_L@,
            comm_ts@,
            x.val(),
            i,
        ) by {
            assert(running_between(m.instances@[i], x.val(), f.lws@[i]));
            assert(f.comm_L@[i] == out_L@[i]);
            assert(f.comm_ts@[i] == out_ts@[i]);
        }
    }
    f
}

/// The commitments are those to the lookups and multiplicities of the running witnesses.
pub open spec fn committed<E: Engine>(
    ck: CommitmentKey<E>,
    lws: Seq<LookupRunningWitness<E>>,
    comm_L: Seq<E::GE>,
    comm_ts: Seq<E::GE>,
) -> bool {
    &&& comm_L.len() == lws.len()
    &&& comm_ts.len() == lws.len()
    &&& forall|j: int|
        0 <= j < lws.len() ==> {
            &&& (#[trigger] lws[j]).witness@.len() <= ck.ck@.len()
            &&& lws[j].multiplicities@.len() <= ck.ck@.len()
            &&& lws[j].table@.len() == lws[j].multiplicities@.len()
            &&& comm_L[j].log() == ck.commitment(vals(lws[j].witness@), 0)
            &&& comm_ts[j].log() == ck.commitment(vals(lws[j].multiplicities@), 0)
        }
}

/// The commitments of a bundle are those to its vectors.
pub open spec fn bundle_committed<E: Engine>(ck: CommitmentKey<E>, b: PerTableBundle<E>) -> bool {
    &&& b.payload.comm_L.log() == ck.commitment(vals(b.fresh_witness_address@), 0)
    &&& b.payload.comm_ts.log() == ck.commitment(vals(b.fresh_multiplicities@), 0)
    &&& b.payload.comm_values@.len() == b.fresh_witness_value_columns@.len()
    &&& forall|c: int|
        0 <= c < b.payload.comm_values@.len() ==> (#[trigger] b.payload.comm_values@[c]).log()
            == ck.commitment(vals(b.fresh_witness_value_columns@[c]@), 0)
}

/// The running witnesses that the bundles carry on.
pub open spec fn running_of<E: Engine>(bundles: Seq<PerTableBundle<E>>) -> Seq<
    LookupRunningWitness<E>,
> {
    Seq::new(bundles.len(), |j: int| bundles[j].running_lw)
}

/// Folding keeps commitments and witnesses together: where the commitments of the running
/// witnesses and of the bundles are right, so are those of what they fold to.
pub proof fn law_fold_keeps_commitments<E: Engine>(
    ck: CommitmentKey<E>,
    f: FoldedTables<E>,
    m: TableMessages<E>,
    bundles: Seq<PerTableBundle<E>>,
    tables: Seq<MultiColumnLookupTable<E>>,
    rs: Seq<int>,
    comm_L: Seq<E::GE>,
    comm_ts: Seq<E::GE>,
    r_b: int,
)
    requires
        bundles_fit(bundles, tables, ck.ck@.len()),
        f.lws@.len() == bundles.len(),
        f.comm_L@.len() == bundles.len(),
        f.comm_ts@.len() == bundles.len(),
        committed(ck, running_of(bundles), comm_L, comm_ts),
        forall|j: int| 0 <= j < bundles.len() ==> bundle_committed(ck, #[trigger] bundles[j]),
        forall|j: int|
            0 <= j < bundles.len() ==> instance_of(
                #[trigger] m.instances@[j],
                bundles[j],
                tables[j],
                m.gammas@[j].val(),
                rs[j],
            ),
        forall|j: int|
            0 <= j < bundles.len() ==> #[trigger] table_folded(
                f,
                m,
                bundles,
                comm_L,
                comm_ts,
                r_b,
                j,
            ),
    ensures
        committed(ck, f.lws@, f.comm_L@, f.comm_ts@),
{
    let p = E::Scalar::modulus();
    E::Scalar::lemma_modulus();
    lemma_reduced(p, 0);
    assert(0 + r_b * (0 - 0) == 0) by (nonlinear_arith);
    assert(line(p, 0, 0, r_b) == 0);
    assert forall|j: int| 0 <= j < f.lws@.len() implies {
        &&& (#[trigger] f.lws@[j]).witness@.len() <= ck.ck@.len()
        &&& f.lws@[j].multiplicities@.len() <= ck.ck@.len()
        &&& f.lws@[j].table@.len() == f.lws@[j].multiplicities@.len()
        &&& f.comm_L@[j].log() == ck.commitment(vals(f.lws@[j].witness@), 0)
        &&& f.comm_ts@[j].log() == ck.commitment(vals(f.lws@[j].multiplicities@), 0)
    } by {
        let b = bundles[j];
        let inst = m.instances@[j];
        let lw = f.lws@[j];
        let gamma = m.gammas@[j].val();
        assert(instance_of(inst, b, tables[j], gamma, rs[j]));
        assert(table_folded(f, m, bundles, comm_L, comm_ts, r_b, j));
        assert(bundle_fits(b, tables[j], ck.ck@.len()));
        assert(bundle_committed(ck, b));
        assert(running_of(bundles)[j] == b.running_lw);
        let addr = vals(b.fresh_witness_address@);
        let cols = vecs(b.fresh_witness_value_columns@);
        law_combined_commitment(ck, addr, cols, gamma);
        let comms = Seq::new(cols.len(), |c: int| ck.commitment(cols[c], 0));
        assert(logs::<E>(b.payload.comm_values@) =~= comms) by {
            assert forall|c: int| 0 <= c < comms.len() implies logs::<E>(
                b.payload.comm_values@,
            )[c] == comms[c] by {
                assert(b.payload.comm_values@[c].log() == ck.commitment(
                    vals(b.fresh_witness_value_columns@[c]@),
                    0,
                ));
            }
        }
        assert(vals(inst.w1_poly.Z@).len() == addr.len());
        assert(vals(inst.w2_poly.Z@) == combined(p, addr, cols, gamma));
        law_commitment_between(ck, vals(inst.w1_poly.Z@), 0, vals(inst.w2_poly.Z@), 0, r_b);
        law_commitment_between(ck, vals(inst.ts1_poly.Z@), 0, vals(inst.ts2_poly.Z@), 0, r_b);
        assert(vals(lw.witness@).len() == lw.witness@.len());
        assert(vals(lw.multiplicities@).len() == lw.multiplicities@.len());
        assert(vals(lw.table@).len() == lw.table@.len());
        assert(vals(inst.t1_poly.Z@).len() == b.running_lw.table@.len());
        assert(vals(inst.ts1_poly.Z@).len() == b.running_lw.multiplicities@.len());
    }
}

/// A lookup of a bundle is the address plus, over all value columns, the value times the power of
/// the challenge that the place of the column names; an entry of its table is the position plus
/// the same sum over the columns of the table.
pub proof fn law_lookups_combined<E: Engine>(
    b: PerTableBundle<E>,
    t: MultiColumnLookupTable<E>,
    gamma: int,
    i: int,
    a: int,
)
    requires
        0 <= i < b.fresh_witness_address@.len(),
        0 <= a < t.size,
        forall|c: int|
            0 <= c < b.fresh_witness_value_columns@.len() ==> (
            #[trigger] b.fresh_witness_value_columns@[c])@.len() > i,
        forall|c: int| 0 <= c < t.columns@.len() ==> (#[trigger] t.columns@[c])@.len() > a,
    ensures
        fresh_lookups(b, gamma).len() == b.fresh_witness_address@.len(),
        fresh_lookups(b, gamma)[i] % E::Scalar::modulus() == (b.fresh_witness_address@[i].val()
            + sum(
            b.fresh_witness_value_columns@.len(),
            |c: int| pow(gamma, (c + 1) as nat) * b.fresh_witness_value_columns@[c]@[i].val(),
        )) % E::Scalar::modulus(),
        table_column(t, gamma).len() == t.size,
        table_column(t, gamma)[a] % E::Scalar::modulus() == (a + sum(
            t.columns@.len(),
            |c: int| pow(gamma, (c + 1) as nat) * t.columns@[c]@[a].val(),
        )) % E::Scalar::modulus(),
{
    let p = E::Scalar::modulus();
    E::Scalar::lemma_modulus();
    let cols = vecs(b.fresh_witness_value_columns@);
    law_combined_sum(p, vals(b.fresh_witness_address@), cols, gamma, i);
    lemma_sum_same(
        cols.len(),
        |c: int| pow(gamma, (c + 1) as nat) * b.fresh_witness_value_columns@[c]@[i].val(),
        |c: int| pow(gamma, (c + 1) as nat) * cols[c][i],
    );
    let columns = vecs(t.columns@);
    law_combined_sum(p, addresses(p, t.size as nat), columns, gamma, a);
    let f = |c: int| pow(gamma, (c + 1) as nat) * t.columns@[c]@[a].val();
    let g = |c: int| pow(gamma, (c + 1) as nat) * columns[c][a];
    lemma_sum_same(columns.len(), f, g);
    lemma_residue(p, a);
    lemma_cong_add(p, a % p, sum(columns.len(), g), a, sum(columns.len(), g));
}

/// Every number of a folded running witness is, place by place, that of the running part times
/// `1 - x` plus that of the part folded in times `x`: the lookups, the table, the multiplicities,
/// the inverses of both and the weights of both.
pub proof fn law_running_mixed<E: Engine>(
    inst: LookupSumcheckInstance<E>,
    x: int,
    lw: LookupRunningWitness<E>,
    i: int,
)
    requires
        running_between(inst, x, lw),
        inst.wf(),
    ensures
        ({
            let p = E::Scalar::modulus();
            &&& lw.witness@.len() == inst.w1_poly.Z@.len()
            &&& lw.inv_w@.len() == inst.w1_poly.Z@.len()
            &&& lw.table@.len() == inst.t1_poly.Z@.len()
            &&& lw.multiplicities@.len() == inst.t1_poly.Z@.len()
            &&& lw.inv_t@.len() == inst.t1_poly.Z@.len()
            &&& 0 <= i < lw.witness@.len() ==> {
                &&& lw.witness@[i].val() == ((1 - x) * inst.w1_poly.Z@[i].val() + x
                    * inst.w2_poly.Z@[i].val()) % p
                &&& lw.inv_w@[i].val() == ((1 - x) * inst.inv_w1_poly.Z@[i].val() + x
                    * inst.inv_w2_poly.Z@[i].val()) % p
            }
            &&& 0 <= i < lw.table@.len() ==> {
                &&& lw.table@[i].val() == ((1 - x) * inst.t1_poly.Z@[i].val() + x
                    * inst.t2_poly.Z@[i].val()) % p
                &&& lw.multiplicities@[i].val() == ((1 - x) * inst.ts1_poly.Z@[i].val() + x
                    * inst.ts2_poly.Z@[i].val()) % p
                &&& lw.inv_t@[i].val() == ((1 - x) * inst.inv_t1_poly.Z@[i].val() + x
                    * inst.inv_t2_poly.Z@[i].val()) % p
            }
            &&& lw.eq_w_left@.len() == inst.eq_w1_left@.len()
            &&& lw.eq_w_right@.len() == inst.eq_w1_right@.len()
            &&& lw.eq_t_left@.len() == inst.eq_t1_left@.len()
            &&& lw.eq_t_right@.len() == inst.eq_t1_right@.len()
            &&& 0 <= i < lw.eq_w_left@.len() ==> lw.eq_w_left@[i].val() == ((1 - x)
                * inst.eq_w1_left@[i].val() + x * inst.eq_w2_left@[i].val()) % p
            &&& 0 <= i < lw.eq_w_right@.len() ==> lw.eq_w_right@[i].val() == ((1 - x)
                * inst.eq_w1_right@[i].val() + x * inst.eq_w2_right@[i].val()) % p
            &&& 0 <= i < lw.eq_t_left@.len() ==> lw.eq_t_left@[i].val() == ((1 - x)
                * inst.eq_t1_left@[i].val() + x * inst.eq_t2_left@[i].val()) % p
            &&& 0 <= i < lw.eq_t_right@.len() ==> lw.eq_t_right@[i].val() == ((1 - x)
                * inst.eq_t1_right@[i].val() + x * inst.eq_t2_right@[i].val()) % p
        }),
{
    let p = E::Scalar::modulus();
    assert(inst.w1().inv.len() == inst.w1().base.len());
    assert(inst.w2().inv.len() == inst.w2().base.len());
    assert(inst.t1().inv.len() == inst.t1().base.len());
    assert(inst.t2().inv.len() == inst.t2().base.len());
    lemma_mixed_at(p, lw.witness@, inst.w1_poly.Z@, inst.w2_poly.Z@, x, i);
    lemma_mixed_at(p, lw.inv_w@, inst.inv_w1_poly.Z@, inst.inv_w2_poly.Z@, x, i);
    lemma_mixed_at(p, lw.table@, inst.t1_poly.Z@, inst.t2_poly.Z@, x, i);
    lemma_mixed_at(p, lw.multiplicities@, inst.ts1_poly.Z@, inst.ts2_poly.Z@, x, i);
    lemma_mixed_at(p, lw.inv_t@, inst.inv_t1_poly.Z@, inst.inv_t2_poly.Z@, x, i);
    lemma_mixed_at(p, lw.eq_w_left@, inst.eq_w1_left@, inst.eq_w2_left@, x, i);
    lemma_mixed_at(p, lw.eq_w_right@, inst.eq_w1_right@, inst.eq_w2_right@, x, i);
    lemma_mixed_at(p, lw.eq_t_left@, inst.eq_t1_left@, inst.eq_t2_left@, x, i);
    lemma_mixed_at(p, lw.eq_t_right@, inst.eq_t1_right@, inst.eq_t2_right@, x, i);
}

/// A scalar of a vector on the lines between two others.
proof fn lemma_mixed_at<F: PrimeField>(p: int, c: Seq<F>, a: Seq<F>, b: Seq<F>, x: int, i: int)
    requires
        vals(c) == between(p, vals(a), vals(b), x),
        a.len() == b.len(),
    ensures
        c.len() == a.len(),
        0 <= i < a.len() ==> c[i].val() == ((1 - x) * a[i].val() + x * b[i].val()) % p,
{
    assert(vals(c).len() == c.len() && vals(a).len() == a.len());
    if 0 <= i < a.len() {
        law_between_mixes(p, vals(a), vals(b), x, i);
        assert(vals(c)[i] == c[i].val() && vals(a)[i] == a[i].val() && vals(b)[i] == b[i].val());
    }
}

/// The public side of the lookups of a step is that of its bundles, table by table: the commitments
/// to the lookups, to the multiplicities and to every value column.
pub proof fn law_public_side<E: Engine>(
    tables: Seq<LookupPayloadPublicMultiTable<E>>,
    bundles: Seq<PerTableBundle<E>>,
    j: int,
)
    requires
        public_of(tables, bundles),
        0 <= j < bundles.len(),
    ensures
        tables.len() == bundles.len(),
        tables[j].table_id == bundles[j].table_id,
        tables[j].comm_L.log() == bundles[j].payload.comm_L.log(),
        tables[j].comm_ts.log() == bundles[j].payload.comm_ts.log(),
        tables[j].comm_values@.len() == bundles[j].payload.comm_values@.len(),
        forall|c: int|
            0 <= c < tables[j].comm_values@.len() ==> (#[trigger] tables[j].comm_values@[c]).log()
                == bundles[j].payload.comm_values@[c].log(),
{
    assert(tables[j].comm_L == bundles[j].payload.comm_L);
}

/// The columns of a table are combined with a challenge of its own: it comes behind `rho` and the
/// challenges of the tables with value columns that stand before it. A table without value columns
/// has none.
pub proof fn law_own_challenge<E: Engine>(x: FoldInput, j: int)
    requires
        0 <= j < x.tables.len(),
    ensures
        x.tables[j].comm_values.len() == 0 ==> table_gamma::<E>(x, j) == 0,
        x.tables[j].comm_values.len() > 0 ==> table_gamma::<E>(x, j) == E::challenge(
            rho_log(x) + Seq::new(
                (1 + sum(
                    j as nat,
                    |i: int|
                        if x.tables[i].comm_values.len() == 0 {
                            0
                        } else {
                            1
                        },
                )) as nat,
                |i: int| RoItem::<int>::Squeeze(128),
            ),
            128,
        ),
{
    let t = x.tables.take(j);
    law_with_columns_sum(t);
    lemma_sum_same(
        j as nat,
        |i: int|
            if x.tables[i].comm_values.len() == 0 {
                0
            } else {
                1
            },
        |i: int|
            if t[i].comm_values.len() == 0 {
                0
            } else {
                1
            },
    );
    law_table_challenges_follow::<E>(x, with_columns(t), 0);
}

/// The inverses of a bundle exist exactly if the challenge is the opposite of no lookup and of no
/// entry of the table.
pub proof fn law_table_invertible_exactly<E: Engine>(
    b: PerTableBundle<E>,
    t: MultiColumnLookupTable<E>,
    gamma: int,
    r: int,
)
    ensures
        table_invertible(b, t, gamma, r) <==> {
            let p = E::Scalar::modulus();
            &&& forall|i: int|
                0 <= i < fresh_lookups(b, gamma).len() ==> (#[trigger] fresh_lookups(b, gamma)[i]
                    + r) % p != 0
            &&& forall|a: int|
                0 <= a < table_column(t, gamma).len() ==> (#[trigger] table_column(t, gamma)[a]
                    + r) % p != 0
        },
{
    let p = E::Scalar::modulus();
    let (v, w) = (fresh_lookups(b, gamma), table_column(t, gamma));
    if table_invertible(b, t, gamma, r) {
        assert forall|i: int| 0 <= i < v.len() implies (#[trigger] v[i] + r) % p != 0 by {}
        assert forall|a: int| 0 <= a < w.len() implies (#[trigger] w[a] + r) % p != 0 by {}
    }
}

} // verus!
