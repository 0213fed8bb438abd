//! The envelope of a chain of folds.

use super::closing::{counts_agree, table_opened, vecs, ClosingArgument};
use super::envelope::{
    bridged_opening, bridged_statement, tables_rejection, CompressedSNARK, LogUpTables, ProverKey,
    VerifierKey,
};
use super::logup::{build_per_table_commitments, commitments, table_inverses, TableInverses};
use crate::commitment::{copy_scalars, lemma_msm_split, lemma_msm_zeros, logs, CommitmentKey};
use crate::engine::{Engine, Group};
use crate::errors::NovaError;
use crate::field::{
    is_prime, lemma_cancel, lemma_cong_add, lemma_cong_mul, lemma_cong_sub, lemma_no_zero_divisors,
    lemma_reduced, PrimeField,
};
use crate::lookup_sumcheck::{inverted_plus_r, invertible_plus_r, quotients_plus_r};
use crate::poly::vals;
use crate::powers::{law_power, powers};
use crate::public_params::PublicParams;
use crate::random::random_scalar;
use crate::recursive::RecursiveSNARK;
use crate::relation::{FoldedInstance, LookupRunningWitness};
use crate::step_circuit::StepCircuit;
use crate::sums::{lemma_sum_cong, lemma_sum_constant_tail, sum};
use crate::text::{append_number, decimal};
use crate::transcript::MAX_ROUNDS;
use vstd::arithmetic::power::pow;
use vstd::prelude::*;
use vstd::string::StringExecFns;

verus! {

/// A sequence cut or filled up with zeros to the length `n`.
pub open spec fn fitted(v: Seq<int>, n: nat) -> Seq<int> {
    Seq::new(
        n,
        |i: int|
            if i < v.len() {
                v[i]
            } else {
                0
            },
    )
}

/// A vector cut or filled up with zeros.
fn fit<F: PrimeField>(v: &Vec<F>, n: usize) -> (r: Vec<F>)
    ensures
        r@.len() == n,
        vals(r@) == fitted(vals(v@), n as nat),
{
    let zero = F::zero();
    let m: usize = v.len();
    let mut r: Vec<F> = Vec::new();
    let mut i: usize = 0;
    while i < n
        invariant
            i <= n,
            m == v@.len(),
            zero.val() == 0,
            r@.len() == i,
            forall|j: int| 0 <= j < i ==> (#[trigger] r@[j]).val() == fitted(vals(v@), n as nat)[j],
        decreases n - i,
    {
        if i < m {
            r.push(v[i]);
        } else {
            r.push(zero);
        }
        i = i + 1;
    }
    proof {
        assert(vals(r@) =~= fitted(vals(v@), n as nat));
    }
    r
}

/// Filling a vector up with zeros does not change its commitment.
pub proof fn law_padding_keeps_commitment<E: Engine>(
    ck: CommitmentKey<E>,
    v: Seq<int>,
    n: nat,
    r: int,
)
    requires
        v.len() <= n,
        n <= ck.ck@.len(),
    ensures
        ck.commitment(fitted(v, n), r) == ck.commitment(v, r),
{
    let g = logs::<E>(ck.ck@);
    let m = (n - v.len()) as nat;
    let z = Seq::new(m, |i: int| 0int);
    assert(fitted(v, n) =~= v + z);
    lemma_msm_split(v, z, g);
    lemma_msm_zeros(m, g.skip(v.len() as int));
}

/// The number of running witnesses is not the number of tables.
pub open spec fn count_reason(found: nat, k: nat) -> Seq<char> {
    "prove_with_lookup_fold: recursive_snark.running_lws cardinality "@ + decimal(found)
        + " does not match pp.lookup_fold_k "@ + decimal(k)
}

/// A running witness is longer than the constraints are many.
pub open spec fn length_reason(j: nat, n_w: nat, num_cons: nat) -> Seq<char> {
    "prove_with_lookup_fold: per-table "@ + decimal(j) + " witness length n_w="@ + decimal(n_w)
        + " exceeds R1CS num_cons="@ + decimal(num_cons) + "; Finding F flat-embedding violated"@
}

fn count_error(found: usize, k: usize) -> (e: NovaError)
    ensures
        e is ProofVerifyError,
        e->ProofVerifyError_reason@ == count_reason(found as nat, k as nat),
{
    let mut s = "prove_with_lookup_fold: recursive_snark.running_lws cardinality ".to_owned();
    append_number(&mut s, found);
    s.append(" does not match pp.lookup_fold_k ");
    append_number(&mut s, k);
    NovaError::ProofVerifyError { reason: s }
}

fn length_error(j: usize, n_w: usize, num_cons: usize) -> (e: NovaError)
    ensures
        e is ProofVerifyError,
        e->ProofVerifyError_reason@ == length_reason(j as nat, n_w as nat, num_cons as nat),
{
    let mut s = "prove_with_lookup_fold: per-table ".to_owned();
    append_number(&mut s, j);
    s.append(" witness length n_w=");
    append_number(&mut s, n_w);
    s.append(" exceeds R1CS num_cons=");
    append_number(&mut s, num_cons);
    s.append("; Finding F flat-embedding violated");
    NovaError::ProofVerifyError { reason: s }
}

/// Two instances are the same in every field.
pub open spec fn same_instance<E: Engine>(a: FoldedInstance<E>, b: FoldedInstance<E>) -> bool {
    &&& a@ == b@
    &&& a.comm_W == b.comm_W
    &&& a.comm_E == b.comm_E
    &&& a.T == b.T
    &&& a.u == b.u
    &&& a.X@ == b.X@
    &&& same_points::<E>(a.comm_L, b.comm_L)
    &&& same_points::<E>(a.comm_ts, b.comm_ts)
    &&& same_points::<E>(a.comm_inv_w, b.comm_inv_w)
    &&& same_points::<E>(a.comm_inv_t, b.comm_inv_t)
    &&& a.T_lookup is Some <==> b.T_lookup is Some
    &&& b.T_lookup is Some ==> a.T_lookup->Some_0@ == b.T_lookup->Some_0@
}

/// Two lists of points that may be missing are the same.
pub open spec fn same_points<E: Engine>(a: Option<Vec<E::GE>>, b: Option<Vec<E::GE>>) -> bool {
    &&& a is Some <==> b is Some
    &&& b is Some ==> a->Some_0@ == b->Some_0@
}

/// The random scalars that the lookups in one table are closed with.
#[derive(Clone, Copy)]
pub struct TableDraw<F: PrimeField> {
    pub r_logup: F,
    pub tau_w: F,
    pub tau_t: F,
}

/// No running witness is longer than `n`.
pub open spec fn none_longer<E: Engine>(lws: Seq<LookupRunningWitness<E>>, n: nat) -> bool {
    forall|j: int| 0 <= j < lws.len() ==> (#[trigger] lws[j]).witness@.len() <= n
}

/// The running witness of table `j` is the first one that is longer than `n`.
pub open spec fn first_longer<E: Engine>(
    lws: Seq<LookupRunningWitness<E>>,
    n: nat,
    j: nat,
) -> bool {
    &&& j < lws.len()
    &&& lws[j as int].witness@.len() > n
    &&& none_longer(lws.take(j as int), n)
}

/// The running witness that is named as too long is longer than `n`, and none before it is; there is
/// one exactly if some running witness is longer than `n`.
pub proof fn law_first_longer<E: Engine>(lws: Seq<LookupRunningWitness<E>>, n: nat, j: nat)
    ensures
        first_longer(lws, n, j) <==> {
            &&& j < lws.len()
            &&& lws[j as int].witness@.len() > n
            &&& forall|i: int| 0 <= i < j ==> (#[trigger] lws[i]).witness@.len() <= n
        },
        j < lws.len() && lws[j as int].witness@.len() > n ==> !none_longer(lws, n),
{
    if j < lws.len() {
        let t = lws.take(j as int);
        if none_longer(t, n) {
            assert forall|i: int| 0 <= i < j implies (#[trigger] lws[i]).witness@.len() <= n by {
                assert(t[i].witness@.len() <= n);
            }
        }
        if forall|i: int| 0 <= i < j ==> (#[trigger] lws[i]).witness@.len() <= n {
            assert forall|i: int| 0 <= i < t.len() implies (#[trigger] t[i]).witness@.len()
                <= n by {
                assert(lws[i].witness@.len() <= n);
            }
        }
    }
}

/// Tests that no running witness is longer than the constraints are many.
fn check_lengths<E: Engine>(lws: &Vec<LookupRunningWitness<E>>, num_cons: usize) -> (r: Result<
    (),
    NovaError,
>)
    ensures
        r is Ok <==> none_longer(lws@, num_cons as nat),
        r is Err ==> r->Err_0 is ProofVerifyError && exists|j: nat| #[trigger]
            first_longer(lws@, num_cons as nat, j),
        forall|j: nat| #[trigger]
            first_longer(lws@, num_cons as nat, j) ==> r is Err && r->Err_0 is ProofVerifyError
                && r->Err_0->ProofVerifyError_reason@ == length_reason(
                j,
                lws@[j as int].witness@.len(),
                num_cons as nat,
            ),
{
    let k: usize = lws.len();
    let mut j: usize = 0;
    while j < k
        invariant
            j <= k,
            k == lws@.len(),
            forall|i: int| 0 <= i < j ==> (#[trigger] lws@[i]).witness@.len() <= num_cons,
        decreases k - j,
    {
        let n_w: usize = lws[j].witness.len();
        if n_w > num_cons {
            proof {
                assert forall|i: nat| #[trigger]
                    first_longer(lws@, num_cons as nat, i) implies i == j by {
                    if i > j {
                        assert(lws@.take(i as int)[j as int].witness@.len() <= num_cons);
                    }
                }
            }
            assert(first_longer(lws@, num_cons as nat, j as nat));
            return Err(length_error(j, n_w, num_cons));
        }
        j = j + 1;
    }
    Ok(())
}

/// The lookups of a running witness can be closed with `n` constraints under the challenge `r`.
pub open spec fn closable<E: Engine>(lw: LookupRunningWitness<E>, n: nat, r: int) -> bool {
    &&& invertible_plus_r(E::Scalar::modulus(), fitted(vals(lw.witness@), n), r)
    &&& invertible_plus_r(E::Scalar::modulus(), table_of(lw, n), r)
}

/// The lookups of every running witness can be closed with the given draws.
pub open spec fn all_closable<E: Engine>(
    lws: Seq<LookupRunningWitness<E>>,
    draws: Seq<TableDraw<E::Scalar>>,
    n: nat,
) -> bool {
    forall|j: int|
        0 <= j < lws.len() ==> closable(#[trigger] lws[j], n, draws[j].r_logup.val())
}

/// How many entries of the table of a running witness are taken: as many as there are
/// multiplicities, and at most `n`.
pub open spec fn entries<E: Engine>(lw: LookupRunningWitness<E>, n: nat) -> nat {
    if lw.multiplicities@.len() < n {
        lw.multiplicities@.len()
    } else {
        n
    }
}

/// The entries of the table of a running witness that are taken, filled up with zeros.
pub open spec fn table_of<E: Engine>(lw: LookupRunningWitness<E>, n: nat) -> Seq<int> {
    fitted(vals(lw.table@).take(entries(lw, n) as int), n)
}

/// The vectors of table `j` are those of the running witness.
pub open spec fn table_closed<E: Engine>(
    t: LogUpTables<E>,
    lws: Seq<LookupRunningWitness<E>>,
    draws: Seq<TableDraw<E::Scalar>>,
    n: nat,
    j: int,
) -> bool {
    let p = E::Scalar::modulus();
    let lw = lws[j];
    let r = draws[j].r_logup.val();
    &&& vals(t.w@[j]@) == fitted(vals(lw.witness@), n)
    &&& vals(t.ts@[j]@) == fitted(vals(lw.multiplicities@), n)
    &&& vals(t.T@[j]@) == table_of(lw, n)
    &&& t.r_logup@[j].val() == r
    &&& inverted_plus_r(p, vals(t.w@[j]@), r, vals(t.inv_w@[j]@))
    &&& quotients_plus_r(p, vals(t.T@[j]@), vals(t.ts@[j]@), r, vals(t.inv_t@[j]@))
    &&& vals(t.eq_w@[j]@) == powers(p, draws[j].tau_w.val(), n)
    &&& vals(t.eq_t@[j]@) == powers(p, draws[j].tau_t.val(), n)
}

/// The commitments are those to the vectors.
pub open spec fn tables_committed<E: Engine>(t: LogUpTables<E>, ck: CommitmentKey<E>) -> bool {
    &&& logs::<E>(t.comm_L@) == commitments(ck, vecs(t.w@))
    &&& logs::<E>(t.comm_ts@) == commitments(ck, vecs(t.ts@))
    &&& logs::<E>(t.comm_inv_w@) == commitments(ck, vecs(t.inv_w@))
    &&& logs::<E>(t.comm_inv_t@) == commitments(ck, vecs(t.inv_t@))
}

/// The tables of the running witnesses have the entries that are taken.
pub open spec fn lws_shaped<E: Engine>(lws: Seq<LookupRunningWitness<E>>, n: nat) -> bool {
    forall|j: int| 0 <= j < lws.len() ==> (#[trigger] lws[j]).table@.len() >= entries(lws[j], n)
}

/// The first entries of a vector.
fn first<F: PrimeField>(v: &Vec<F>, n: usize) -> (r: Vec<F>)
    requires
        n <= v@.len(),
    ensures
        vals(r@) == vals(v@).take(n as int),
{
    let mut r: Vec<F> = Vec::new();
    let mut i: usize = 0;
    while i < n
        invariant
            i <= n,
            n <= v@.len(),
            r@ == v@.take(i as int),
        decreases n - i,
    {
        r.push(v[i]);
        assert(r@ =~= v@.take(i as int + 1));
        i = i + 1;
    }
    assert(vals(r@) =~= vals(v@).take(n as int));
    r
}

/// The vectors of running witnesses, cut or filled up to `num_cons` entries, with their inverses,
/// weights and commitments. It is an error if an inverse is missing.
pub fn close_tables<E: Engine>(
    ck: &CommitmentKey<E>,
    num_cons: usize,
    lws: &Vec<LookupRunningWitness<E>>,
    draws: &Vec<TableDraw<E::Scalar>>,
) -> (res: Result<LogUpTables<E>, NovaError>)
    requires
        num_cons <= ck.ck@.len(),
        draws@.len() == lws@.len(),
        none_longer(lws@, num_cons as nat),
        lws_shaped(lws@, num_cons as nat),
    ensures
        res is Ok <==> all_closable(lws@, draws@, num_cons as nat),
        res is Err ==> res == Err::<LogUpTables<E>, NovaError>(NovaError::InvalidInversion),
        res is Ok ==> {
            let t = res->Ok_0;
            &&& t.counted()
            &&& t.r_logup@.len() == lws@.len()
            &&& tables_committed(t, *ck)
            &&& forall|j: int|
                0 <= j < lws@.len() ==> #[trigger] table_closed(
                    t,
                    lws@,
                    draws@,
                    num_cons as nat,
                    j,
                )
        },
{
    let ghost p = E::Scalar::modulus();
    let ghost n = num_cons as nat;
    let k: usize = lws.len();
    let mut w: Vec<Vec<E::Scalar>> = Vec::new();
    let mut ts: Vec<Vec<E::Scalar>> = Vec::new();
    let mut inv_w: Vec<Vec<E::Scalar>> = Vec::new();
    let mut inv_t: Vec<Vec<E::Scalar>> = Vec::new();
    let mut T: Vec<Vec<E::Scalar>> = Vec::new();
    let mut eq_w: Vec<Vec<E::Scalar>> = Vec::new();
    let mut eq_t: Vec<Vec<E::Scalar>> = Vec::new();
    let mut r_logup: Vec<E::Scalar> = Vec::new();
    let mut j: usize = 0;
    while j < k
        invariant
            j <= k,
            k == lws@.len(),
            k == draws@.len(),
            n == num_cons,
            p == E::Scalar::modulus(),
            num_cons <= ck.ck@.len(),
            none_longer(lws@, num_cons as nat),
            lws_shaped(lws@, num_cons as nat),
            w@.len() == j,
            ts@.len() == j,
            inv_w@.len() == j,
            inv_t@.len() == j,
            T@.len() == j,
            eq_w@.len() == j,
            eq_t@.len() == j,
            r_logup@.len() == j,
            forall|i: int|
                0 <= i < j ==> closable(#[trigger] lws@[i], n, draws@[i].r_logup.val()),
            forall|i: int| 0 <= i < j ==> (#[trigger] w@[i])@.len() == n,
            forall|i: int| 0 <= i < j ==> (#[trigger] ts@[i])@.len() == n,
            forall|i: int| 0 <= i < j ==> (#[trigger] inv_w@[i])@.len() == n,
            forall|i: int| 0 <= i < j ==> (#[trigger] inv_t@[i])@.len() == n,
            forall|i: int|
                0 <= i < j ==> vals((#[trigger] w@[i])@) == fitted(vals(lws@[i].witness@), n),
            forall|i: int|
                0 <= i < j ==> vals((#[trigger] ts@[i])@) == fitted(
                    vals(lws@[i].multiplicities@),
                    n,
                ),
            forall|i: int| 0 <= i < j ==> vals((#[trigger] T@[i])@) == table_of(lws@[i], n),
            forall|i: int|
                0 <= i < j ==> (#[trigger] r_logup@[i]).val() == draws@[i].r_logup.val(),
            forall|i: int|
                0 <= i < j ==> inverted_plus_r(
                    p,
                    vals(w@[i]@),
                    draws@[i].r_logup.val(),
                    vals((#[trigger] inv_w@[i])@),
                ),
            forall|i: int|
                0 <= i < j ==> quotients_plus_r(
                    p,
                    vals(T@[i]@),
                    vals(ts@[i]@),
                    draws@[i].r_logup.val(),
                    vals((#[trigger] inv_t@[i])@),
                ),
            forall|i: int|
                0 <= i < j ==> vals((#[trigger] eq_w@[i])@) == powers(
                    p,
                    draws@[i].tau_w.val(),
                    n,
                ),
            forall|i: int|
                0 <= i < j ==> vals((#[trigger] eq_t@[i])@) == powers(
                    p,
                    draws@[i].tau_t.val(),
                    n,
                ),
        decreases k - j,
    {
        let lw = &lws[j];
        let d = draws[j];
        proof {
            assert(lws@[j as int].table@.len() >= entries(lws@[j as int], n));
        }
        let n_t: usize = lw.multiplicities.len();
        let taken: usize = if n_t < num_cons {
            n_t
        } else {
            num_cons
        };
        let w_j = fit(&lw.witness, num_cons);
        let ts_j = fit(&lw.multiplicities, num_cons);
        let T_j = fit(&first(&lw.table, taken), num_cons);
        let o = match table_inverses(&w_j, &ts_j, &T_j, d.r_logup, d.tau_w, d.tau_t) {
            Ok(o) => o,
            Err(e) => {
                proof {
                    assert(!closable(lws@[j as int], n, d.r_logup.val()));
                }
                return Err(e);
            },
        };
        let TableInverses { inv_w: inv_w_j, inv_t: inv_t_j, eq_w: eq_w_j, eq_t: eq_t_j } = o;
        w.push(w_j);
        ts.push(ts_j);
        inv_w.push(inv_w_j);
        inv_t.push(inv_t_j);
        T.push(T_j);
        eq_w.push(eq_w_j);
        eq_t.push(eq_t_j);
        r_logup.push(d.r_logup);
        proof {
            assert(closable(lws@[j as int], n, draws@[j as int].r_logup.val()));
        }
        j = j + 1;
    }
    let (comm_L, comm_ts, comm_inv_w, comm_inv_t) = build_per_table_commitments(
        ck,
        &w,
        &ts,
        &inv_w,
        &inv_t,
    );
    let t = LogUpTables {
        w,
        ts,
        inv_w,
        inv_t,
        T,
        eq_w,
        eq_t,
        r_logup,
        comm_L,
        comm_ts,
        comm_inv_w,
        comm_inv_t,
    };
    proof {
        assert forall|i: int| 0 <= i < k implies #[trigger] table_closed(
            t,
            lws@,
            draws@,
            n,
            i,
        ) by {
            assert(t.w@[i] == w@[i]);
            assert(t.ts@[i] == ts@[i]);
            assert(t.T@[i] == T@[i]);
            assert(t.inv_w@[i] == inv_w@[i]);
            assert(t.inv_t@[i] == inv_t@[i]);
            assert(t.r_logup@[i] == r_logup@[i]);
            assert(t.eq_w@[i] == eq_w@[i]);
            assert(t.eq_t@[i] == eq_t@[i]);
        }
    }
    Ok(t)
}

/// Draws the random scalars for `k` tables.
fn draw_tables<F: PrimeField>(k: usize) -> (r: Result<Vec<TableDraw<F>>, NovaError>)
    ensures
        r is Err ==> r == Err::<Vec<TableDraw<F>>, NovaError>(NovaError::RandomnessUnavailable),
        r is Ok ==> r->Ok_0@.len() == k,
{
    let mut r: Vec<TableDraw<F>> = Vec::new();
    let mut j: usize = 0;
    while j < k
        invariant
            j <= k,
            r@.len() == j,
        decreases k - j,
    {
        let r_logup = random_scalar::<F>()?;
        let tau_w = random_scalar::<F>()?;
        let tau_t = random_scalar::<F>()?;
        r.push(TableDraw { r_logup, tau_w, tau_t });
        j = j + 1;
    }
    Ok(r)
}

/// Closed tables are opened by their vectors.
proof fn lemma_closed_opened<E: Engine, C: StepCircuit<E::Scalar>>(
    pp: PublicParams<E, C>,
    s: RecursiveSNARK<E, C>,
    t: LogUpTables<E>,
    lws: Seq<LookupRunningWitness<E>>,
    draws: Seq<TableDraw<E::Scalar>>,
)
    requires
        t.counted(),
        t.r_logup@.len() == lws.len(),
        tables_committed(t, pp.ck),
        forall|j: int|
            0 <= j < lws.len() ==> #[trigger] table_closed(
                t,
                lws,
                draws,
                pp.structure.S.num_cons as nat,
                j,
            ),
    ensures
        ({
            let st = bridged_statement(pp.ck, pp.structure, s.r_U, s.r_W, t.claims());
            let o = bridged_opening(pp.structure, s.r_W, t.witnesses());
            &&& counts_agree(st, o)
            &&& forall|j: int|
                0 <= j < st.comm_L.len() ==> #[trigger] table_opened(
                    pp.ck,
                    pp.structure.S.num_cons as nat,
                    st,
                    o,
                    j,
                )
        }),
{
    let st = bridged_statement(pp.ck, pp.structure, s.r_U, s.r_W, t.claims());
    let o = bridged_opening(pp.structure, s.r_W, t.witnesses());
    assert(counts_agree(st, o));
    let n = pp.structure.S.num_cons as nat;
    assert forall|j: int| 0 <= j < st.comm_L.len() implies #[trigger] table_opened(
        pp.ck,
        n,
        st,
        o,
        j,
    ) by {
        assert(table_closed(t, lws, draws, n, j));
        assert(logs::<E>(t.comm_L@)[j] == commitments(pp.ck, vecs(t.w@))[j]);
        assert(logs::<E>(t.comm_ts@)[j] == commitments(pp.ck, vecs(t.ts@))[j]);
        assert(logs::<E>(t.comm_inv_w@)[j] == commitments(pp.ck, vecs(t.inv_w@))[j]);
        assert(logs::<E>(t.comm_inv_t@)[j] == commitments(pp.ck, vecs(t.inv_t@))[j]);
    }
}

/// Commitments that agree position by position have no mismatch.
proof fn lemma_no_mismatch(a: Seq<int>, b: Seq<int>, c: Seq<int>, d: Seq<int>, j: nat)
    requires
        forall|i: int| j <= i < a.len() ==> #[trigger] a[i] == c[i] && b[i] == d[i],
    ensures
        tables_rejection(a, b, c, d, j) is None,
    decreases a.len() - j,
{
    if j < a.len() {
        assert(a[j as int] == c[j as int]);
        lemma_no_mismatch(a, b, c, d, (j + 1) as nat);
    }
}

impl<E: Engine, EE: ClosingArgument<E>> CompressedSNARK<E, EE> {
    /// The keys for the parameters of a chain.
    pub fn setup<C: StepCircuit<E::Scalar>>(pp: &PublicParams<E, C>) -> (r: Result<
        (ProverKey<E, EE>, VerifierKey<E, EE>),
        NovaError,
    >)
        requires
            pp.wf(),
        ensures
            r is Ok,
            EE::pk_for(r->Ok_0.0.pk_spartan, pp.ck, pp.structure),
            r->Ok_0.1.wf(),
            r->Ok_0.1.belongs_to(pp.ck, pp.structure),
            r->Ok_0.1.F_arity == pp.F_arity,
            r->Ok_0.1.pp_digest.val() == pp.digest_val(),
            r->Ok_0.1.lookup_fold_k == pp.lookup_fold_k,
            r->Ok_0.1.shape_registry_digest.val() == 0,
            r->Ok_0.1.dk.h == pp.ck.h,
            EE::pk_digest(r->Ok_0.0.pk_spartan) == EE::vk_digest(r->Ok_0.1.vk_spartan),
    {
        let (pk_spartan, vk_spartan) = match EE::setup(&pp.ck, &pp.structure) {
            Ok(keys) => keys,
            Err(e) => {
                return Err(e);
            },
        };
        proof {
            EE::lemma_digests(pk_spartan, vk_spartan, pp.ck, pp.structure);
        }
        let pk = ProverKey { pk_spartan };
        let vk = VerifierKey {
            F_arity: pp.F_arity,
            pp_digest: pp.digest(),
            vk_spartan,
            lookup_fold_k: pp.lookup_fold_k,
            shape_registry_digest: E::Scalar::zero(),
            dk: pp.ck.derand_key(),
            structure: pp.structure.duplicate(),
            ck: pp.ck.duplicate(),
        };
        Ok((pk, vk))
    }

    /// Makes an envelope of a chain without lookups.
    pub fn prove<C: StepCircuit<E::Scalar>>(
        pp: &PublicParams<E, C>,
        pk: &ProverKey<E, EE>,
        recursive_snark: &RecursiveSNARK<E, C>,
    ) -> (r: Result<Self, NovaError>)
        requires
            pp.wf(),
            EE::pk_for(pk.pk_spartan, pp.ck, pp.structure),
            recursive_snark.r_W.E@.len() == pp.structure.left + pp.structure.right,
        ensures
            r is Err ==> r->Err_0 == NovaError::RandomnessUnavailable
                || !pp.structure.satisfied_by(pp.ck, recursive_snark.r_U, recursive_snark.r_W),
            r is Ok ==> {
                &&& r->Ok_0.made_without_tables(
                    pp.ck,
                    pp.structure,
                    EE::pk_digest(pk.pk_spartan),
                    recursive_snark.r_U,
                    recursive_snark.r_W,
                )
                &&& r->Ok_0.zn@ == recursive_snark.zi@
                &&& r->Ok_0.untied()
            },
    {
        Self::prove_from_parts(
            &pp.ck,
            &pp.structure,
            pk,
            &recursive_snark.r_U,
            &recursive_snark.r_W,
            copy_scalars(&recursive_snark.zi),
        )
    }

    /// The envelope carries what ties it to a chain.
    pub open spec fn tied_to<C: StepCircuit<E::Scalar>>(self, s: RecursiveSNARK<E, C>) -> bool {
        &&& self.has_snapshot()
        &&& same_instance(self.r_U_snapshot->Some_0, s.r_U)
        &&& self.l_u_X0_snapshot == Some(s.l_u.X@[0])
        &&& self.ri_snapshot == Some(s.ri)
        &&& self.i_snapshot == Some(s.i)
        &&& self.z0_snapshot->Some_0@ == s.z0@
        &&& self.zn@ == s.zi@
    }

    /// The envelope closes the lookups of a chain with the given draws.
    pub open spec fn closes_chain<C: StepCircuit<E::Scalar>>(
        self,
        pp: PublicParams<E, C>,
        digest: int,
        s: RecursiveSNARK<E, C>,
        t: LogUpTables<E>,
        draws: Seq<TableDraw<E::Scalar>>,
    ) -> bool {
        &&& t.counted()
        &&& t.r_logup@.len() == s.running_lws@.len()
        &&& tables_committed(t, pp.ck)
        &&& forall|j: int|
            0 <= j < s.running_lws@.len() ==> #[trigger] table_closed(
                t,
                s.running_lws@,
                draws,
                pp.structure.S.num_cons as nat,
                j,
            )
        &&& self.made_from(
            pp.ck,
            pp.structure,
            digest,
            s.r_U,
            s.r_W,
            t.claims(),
            t.witnesses(),
        )
        &&& self.claims() == t.claims()
    }

    /// Makes an envelope of a chain with lookups. Without tables it is `prove`.
    pub fn prove_with_lookup_fold<C: StepCircuit<E::Scalar>>(
        pp: &PublicParams<E, C>,
        pk: &ProverKey<E, EE>,
        recursive_snark: &RecursiveSNARK<E, C>,
    ) -> (r: Result<Self, NovaError>)
        requires
            pp.wf(),
            EE::pk_for(pk.pk_spartan, pp.ck, pp.structure),
            recursive_snark.r_W.E@.len() == pp.structure.left + pp.structure.right,
            pp.lookup_fold_k > 0 ==> recursive_snark.l_u.X@.len() > 0,
            lws_shaped(recursive_snark.running_lws@, pp.structure.S.num_cons as nat),
        ensures
            pp.lookup_fold_k == 0 && r is Ok ==> r->Ok_0.made_without_tables(
                pp.ck,
                pp.structure,
                EE::pk_digest(pk.pk_spartan),
                recursive_snark.r_U,
                recursive_snark.r_W,
            ) && r->Ok_0.untied() && r->Ok_0.zn@ == recursive_snark.zi@,
            pp.lookup_fold_k == 0 && r is Err ==> r->Err_0 == NovaError::RandomnessUnavailable
                || !pp.structure.satisfied_by(pp.ck, recursive_snark.r_U, recursive_snark.r_W),
            pp.lookup_fold_k > 0 && recursive_snark.running_lws@.len() != pp.lookup_fold_k ==> {
                &&& r is Err
                &&& r->Err_0 is ProofVerifyError
                &&& r->Err_0->ProofVerifyError_reason@ == count_reason(
                    recursive_snark.running_lws@.len(),
                    pp.lookup_fold_k as nat,
                )
            },
            pp.lookup_fold_k > 0 && r is Ok ==> {
                &&& recursive_snark.running_lws@.len() == pp.lookup_fold_k
                &&& r->Ok_0.tied_to(*recursive_snark)
                &&& exists|t: LogUpTables<E>, draws: Seq<TableDraw<E::Scalar>>| #[trigger]
                    r->Ok_0.closes_chain(
                        *pp,
                        EE::pk_digest(pk.pk_spartan),
                        *recursive_snark,
                        t,
                        draws,
                    ) && all_closable(
                        recursive_snark.running_lws@,
                        draws,
                        pp.structure.S.num_cons as nat,
                    )
                &&& none_longer(recursive_snark.running_lws@, pp.structure.S.num_cons as nat)
            },
            pp.lookup_fold_k > 0 && recursive_snark.running_lws@.len() == pp.lookup_fold_k
                && !none_longer(recursive_snark.running_lws@, pp.structure.S.num_cons as nat) ==> {
                &&& r is Err
                &&& r->Err_0 is ProofVerifyError
                &&& exists|j: nat| #[trigger]
                    first_longer(recursive_snark.running_lws@, pp.structure.S.num_cons as nat, j)
            },
            forall|j: nat|
                pp.lookup_fold_k > 0 && recursive_snark.running_lws@.len() == pp.lookup_fold_k
                    && #[trigger] first_longer(
                    recursive_snark.running_lws@,
                    pp.structure.S.num_cons as nat,
                    j,
                ) ==> {
                    &&& r is Err
                    &&& r->Err_0 is ProofVerifyError
                    &&& r->Err_0->ProofVerifyError_reason@ == length_reason(
                        j,
                        recursive_snark.running_lws@[j as int].witness@.len(),
                        pp.structure.S.num_cons as nat,
                    )
                },
            pp.lookup_fold_k > 0 && r is Err && recursive_snark.running_lws@.len()
                == pp.lookup_fold_k && none_longer(
                recursive_snark.running_lws@,
                pp.structure.S.num_cons as nat,
            ) ==> {
                ||| r->Err_0 == NovaError::RandomnessUnavailable
                ||| r->Err_0 == NovaError::InvalidInversion && exists|
                    draws: Seq<TableDraw<E::Scalar>>,
                |
                    !#[trigger] all_closable(
                        recursive_snark.running_lws@,
                        draws,
                        pp.structure.S.num_cons as nat,
                    )
                ||| {
                    &&& exists|draws: Seq<TableDraw<E::Scalar>>| #[trigger]
                        all_closable(
                            recursive_snark.running_lws@,
                            draws,
                            pp.structure.S.num_cons as nat,
                        )
                    &&& pp.lookup_fold_k >= MAX_ROUNDS && r->Err_0
                        == NovaError::InternalTranscriptError || !pp.structure.satisfied_by(
                        pp.ck,
                        recursive_snark.r_U,
                        recursive_snark.r_W,
                    )
                }
            },
    {
        if pp.lookup_fold_k == 0 {
            return Self::prove(pp, pk, recursive_snark);
        }
        let k: usize = pp.lookup_fold_k;
        let num_cons: usize = pp.structure.S.num_cons;
        if recursive_snark.running_lws.len() != k {
            return Err(count_error(recursive_snark.running_lws.len(), k));
        }
        match check_lengths(&recursive_snark.running_lws, num_cons) {
            Ok(_) => {},
            Err(e) => {
                return Err(e);
            },
        }
        proof {
            assert forall|j: nat| #[trigger]
                first_longer(recursive_snark.running_lws@, num_cons as nat, j) implies false by {
                assert(recursive_snark.running_lws@[j as int].witness@.len() <= num_cons);
            }
        }
        let draws = match draw_tables::<E::Scalar>(k) {
            Ok(x) => x,
            Err(e) => {
                return Err(e);
            },
        };
        let t = match close_tables(&pp.ck, num_cons, &recursive_snark.running_lws, &draws) {
            Ok(x) => x,
            Err(e) => {
                return Err(e);
            },
        };
        let ghost t0 = t;
        proof {
            lemma_closed_opened(
                *pp,
                *recursive_snark,
                t0,
                recursive_snark.running_lws@,
                draws@,
            );
            if pp.structure.satisfied_by(pp.ck, recursive_snark.r_U, recursive_snark.r_W) {
                Self::law_honest_closes(
                    pp.ck,
                    pp.structure,
                    recursive_snark.r_U,
                    recursive_snark.r_W,
                    t0.claims(),
                    t0.witnesses(),
                );
            }
        }
        let LogUpTables {
            w,
            ts,
            inv_w,
            inv_t,
            T,
            eq_w,
            eq_t,
            r_logup,
            comm_L,
            comm_ts,
            comm_inv_w,
            comm_inv_t,
        } = t;
        let envelope = match Self::prove_from_parts_with_logup(
            &pp.ck,
            &pp.structure,
            pk,
            &recursive_snark.r_U,
            &recursive_snark.r_W,
            copy_scalars(&recursive_snark.zi),
            w,
            ts,
            inv_w,
            inv_t,
            T,
            eq_w,
            eq_t,
            r_logup,
            comm_L,
            comm_ts,
            comm_inv_w,
            comm_inv_t,
        ) {
            Ok(x) => x,
            Err(e) => {
                return Err(e);
            },
        };
        let ghost plain = envelope;
        let out = CompressedSNARK {
            U_bridged: envelope.U_bridged,
            r_U_derand_comm_E: envelope.r_U_derand_comm_E,
            comm_E2_bind: envelope.comm_E2_bind,
            sigma_E2_equality: envelope.sigma_E2_equality,
            snark_spartan: envelope.snark_spartan,
            zn: envelope.zn,
            per_table_comm_L: envelope.per_table_comm_L,
            per_table_comm_ts: envelope.per_table_comm_ts,
            per_table_comm_inv_w: envelope.per_table_comm_inv_w,
            per_table_comm_inv_t: envelope.per_table_comm_inv_t,
            per_table_T_lookup: envelope.per_table_T_lookup,
            per_table_r_logup: envelope.per_table_r_logup,
            r_U_snapshot: Some(recursive_snark.r_U.duplicate()),
            l_u_X0_snapshot: Some(recursive_snark.l_u.X[0]),
            ri_snapshot: Some(recursive_snark.ri),
            i_snapshot: Some(recursive_snark.i),
            z0_snapshot: Some(copy_scalars(&recursive_snark.z0)),
        };
        proof {
            assert(out.statement() == plain.statement());
            assert(out.claims() == plain.claims());
            assert(out.made_from(
                pp.ck,
                pp.structure,
                EE::pk_digest(pk.pk_spartan),
                recursive_snark.r_U,
                recursive_snark.r_W,
                t0.claims(),
                t0.witnesses(),
            ));
            assert(out.closes_chain(
                *pp,
                EE::pk_digest(pk.pk_spartan),
                *recursive_snark,
                t0,
                draws@,
            ));
        }
        Ok(out)
    }

    /// The envelope of a chain that is kept as it should be is accepted: with the first state,
    /// the number of steps and the last state of the chain.
    pub proof fn law_chain_envelope_verifies<C: StepCircuit<E::Scalar>>(
        self,
        vk: VerifierKey<E, EE>,
        pp: PublicParams<E, C>,
        s: RecursiveSNARK<E, C>,
        t: LogUpTables<E>,
        draws: Seq<TableDraw<E::Scalar>>,
    )
        requires
            pp.wf(),
            vk.belongs_to(pp.ck, pp.structure),
            vk.pp_digest.val() == pp.digest_val(),
            0 < pp.lookup_fold_k < MAX_ROUNDS,
            s.wf(pp),
            s.lookups_committed(pp),
            s.i > 0,
            forall|j: int|
                0 <= j < s.running_lws@.len() ==> {
                    &&& (#[trigger] s.running_lws@[j]).witness@.len() <= pp.structure.S.num_cons
                    &&& s.running_lws@[j].multiplicities@.len() <= pp.structure.S.num_cons
                },
            self.tied_to(s),
            self.closes_chain(pp, EE::vk_digest(vk.vk_spartan), s, t, draws),
        ensures
            self.rejection(vk, s.i as nat, vals(s.z0@), vals(s.zi@)) is None,
    {
        let digest = EE::vk_digest(vk.vk_spartan);
        let n = pp.structure.S.num_cons as nat;
        lemma_closed_opened(pp, s, t, s.running_lws@, draws);
        let U = self.r_U_snapshot->Some_0;
        let a = logs::<E>(self.per_table_comm_L@);
        let b = logs::<E>(self.per_table_comm_ts@);
        let c = logs::<E>(U.comm_L->Some_0@);
        let d = logs::<E>(U.comm_ts->Some_0@);
        assert(self.per_table_comm_L@ == t.comm_L@) by {
            assert(self.claims().comm_L == t.claims().comm_L);
        }
        assert(self.per_table_comm_ts@ == t.comm_ts@) by {
            assert(self.claims().comm_ts == t.claims().comm_ts);
        }
        assert forall|j: int| 0 <= j < a.len() implies #[trigger] a[j] == c[j] && b[j] == d[j] by {
            let lw = s.running_lws@[j];
            assert(table_closed(t, s.running_lws@, draws, n, j));
            assert(a[j] == commitments(pp.ck, vecs(t.w@))[j]);
            assert(b[j] == commitments(pp.ck, vecs(t.ts@))[j]);
            law_padding_keeps_commitment(pp.ck, vals(lw.witness@), n, 0);
            law_padding_keeps_commitment(pp.ck, vals(lw.multiplicities@), n, 0);
        }
        lemma_no_mismatch(a, b, c, d, 0);
        assert(self.snapshot_rejection(vk.pp_digest.val(), s.i as nat, vals(s.z0@)) is None);
        assert(Self::honest(pp.ck, pp.structure, s.r_U, s.r_W, t.claims(), t.witnesses()));
        self.law_honest_envelope_verifies(
            vk,
            digest,
            pp.ck,
            pp.structure,
            s.r_U,
            s.r_W,
            t.claims(),
            t.witnesses(),
            s.i as nat,
            vals(s.z0@),
        );
    }

    /// The envelope of a chain with tables carries the folded instance, the public value of the last
    /// step, the number drawn for its hash, the number of steps, and the first and the last state
    /// of the chain. It is therefore rejected with another number of steps, another first state or
    /// another last state, whatever else is claimed.
    pub proof fn law_chain_envelope_tied<C: StepCircuit<E::Scalar>>(
        self,
        vk: VerifierKey<E, EE>,
        s: RecursiveSNARK<E, C>,
        num_steps: nat,
        z0: Seq<int>,
        zn: Seq<int>,
    )
        requires
            self.tied_to(s),
        ensures
            self.r_U_snapshot is Some,
            self.l_u_X0_snapshot is Some,
            self.ri_snapshot is Some,
            self.i_snapshot is Some,
            self.z0_snapshot is Some,
            self.r_U_snapshot->Some_0@ == s.r_U@,
            self.r_U_snapshot->Some_0.comm_W.log() == s.r_U.comm_W.log(),
            self.r_U_snapshot->Some_0.comm_E.log() == s.r_U.comm_E.log(),
            self.l_u_X0_snapshot->Some_0.val() == s.l_u.X@[0].val(),
            self.ri_snapshot->Some_0.val() == s.ri.val(),
            self.i_snapshot->Some_0 == s.i,
            vals(self.z0_snapshot->Some_0@) == vals(s.z0@),
            vals(self.zn@) == vals(s.zi@),
            num_steps != s.i || z0 != vals(s.z0@) || zn != vals(s.zi@) ==> self.rejection(
                vk,
                num_steps,
                z0,
                zn,
            ) is Some,
    {
    }

    /// The envelope of a chain publishes the tables of the chain: each of them is the running
    /// table, as far as there are multiplicities and constraints, and zero from there on. In the
    /// same way the lookups that it closes are the running ones and the multiplicities the running
    /// ones, each filled up with zeros, and the published commitments to the lookups are those to
    /// the running lookups themselves. At every place `w + r` times the inverse is one, and `T + r`
    /// times the quotient is the multiplicity. The weights of the places are the powers of the
    /// numbers drawn for them.
    pub proof fn law_chain_tables_published<C: StepCircuit<E::Scalar>>(
        self,
        pp: PublicParams<E, C>,
        digest: int,
        s: RecursiveSNARK<E, C>,
        t: LogUpTables<E>,
        draws: Seq<TableDraw<E::Scalar>>,
        j: int,
    )
        requires
            pp.wf(),
            self.closes_chain(pp, digest, s, t, draws),
            none_longer(s.running_lws@, pp.structure.S.num_cons as nat),
            lws_shaped(s.running_lws@, pp.structure.S.num_cons as nat),
            0 <= j < s.running_lws@.len(),
        ensures
            ({
                let n = pp.structure.S.num_cons;
                let p = E::Scalar::modulus();
                let lw = s.running_lws@[j];
                let T = self.per_table_T_lookup@[j]@;
                let r = self.per_table_r_logup@[j].val();
                &&& self.per_table_T_lookup@.len() == s.running_lws@.len()
                &&& self.per_table_r_logup@.len() == s.running_lws@.len()
                &&& self.per_table_comm_L@.len() == s.running_lws@.len()
                &&& self.per_table_comm_ts@.len() == s.running_lws@.len()
                &&& self.per_table_comm_inv_w@.len() == s.running_lws@.len()
                &&& self.per_table_comm_inv_t@.len() == s.running_lws@.len()
                &&& T.len() == n
                &&& t.w@[j]@.len() == n
                &&& t.ts@[j]@.len() == n
                &&& t.inv_w@[j]@.len() == n
                &&& t.inv_t@[j]@.len() == n
                &&& forall|a: int|
                    0 <= a < n ==> (#[trigger] T[a]).val() == if a < lw.multiplicities@.len() {
                        lw.table@[a].val()
                    } else {
                        0
                    }
                &&& forall|a: int|
                    0 <= a < n ==> (#[trigger] t.w@[j]@[a]).val() == if a < lw.witness@.len() {
                        lw.witness@[a].val()
                    } else {
                        0
                    }
                &&& forall|a: int|
                    0 <= a < n ==> (#[trigger] t.ts@[j]@[a]).val() == if a
                        < lw.multiplicities@.len() {
                        lw.multiplicities@[a].val()
                    } else {
                        0
                    }
                &&& forall|a: int|
                    0 <= a < n ==> ((t.w@[j]@[a].val() + r) * (#[trigger] t.inv_w@[j]@[a]).val())
                        % p == 1
                &&& forall|a: int|
                    0 <= a < n ==> ((T[a].val() + r) * (#[trigger] t.inv_t@[j]@[a]).val()) % p
                        == t.ts@[j]@[a].val()
                &&& t.eq_w@[j]@.len() == n
                &&& t.eq_t@[j]@.len() == n
                &&& forall|a: int|
                    0 <= a < n ==> (#[trigger] t.eq_w@[j]@[a]).val() == pow(
                        draws[j].tau_w.val(),
                        a as nat,
                    ) % p
                &&& forall|a: int|
                    0 <= a < n ==> (#[trigger] t.eq_t@[j]@[a]).val() == pow(
                        draws[j].tau_t.val(),
                        a as nat,
                    ) % p
                &&& r == draws[j].r_logup.val()
                &&& self.per_table_comm_L@[j].log() == pp.ck.commitment(vals(lw.witness@), 0)
                &&& lw.multiplicities@.len() <= n ==> self.per_table_comm_ts@[j].log()
                    == pp.ck.commitment(vals(lw.multiplicities@), 0)
                &&& self.per_table_comm_inv_w@[j].log() == pp.ck.commitment(
                    vals(t.inv_w@[j]@),
                    0,
                )
                &&& self.per_table_comm_inv_t@[j].log() == pp.ck.commitment(
                    vals(t.inv_t@[j]@),
                    0,
                )
            }),
    {
        let n = pp.structure.S.num_cons as nat;
        let p = E::Scalar::modulus();
        E::Scalar::lemma_modulus();
        let lw = s.running_lws@[j];
        assert(table_closed(t, s.running_lws@, draws, n, j));
        assert(self.claims().T_lookup == t.claims().T_lookup);
        assert(self.claims().r_logup == t.claims().r_logup);
        assert(self.claims().comm_L == t.claims().comm_L);
        assert(self.claims().comm_ts == t.claims().comm_ts);
        assert(self.claims().comm_inv_w == t.claims().comm_inv_w);
        assert(self.claims().comm_inv_t == t.claims().comm_inv_t);
        assert(vals(t.w@[j]@).len() == t.w@[j]@.len() && vals(t.ts@[j]@).len() == t.ts@[j]@.len());
        assert(vals(t.T@[j]@).len() == t.T@[j]@.len());
        assert(vals(t.inv_w@[j]@).len() == t.inv_w@[j]@.len());
        assert(vals(t.inv_t@[j]@).len() == t.inv_t@[j]@.len());
        assert forall|a: int| 0 <= a < n implies (#[trigger] t.T@[j]@[a]).val() == if a
            < lw.multiplicities@.len() {
            lw.table@[a].val()
        } else {
            0
        } by {
            assert(vals(t.T@[j]@)[a] == t.T@[j]@[a].val());
            assert(lw.table@.len() >= entries(lw, n));
        }
        assert forall|a: int| 0 <= a < n implies (#[trigger] t.w@[j]@[a]).val() == if a
            < lw.witness@.len() {
            lw.witness@[a].val()
        } else {
            0
        } by {
            assert(vals(t.w@[j]@)[a] == t.w@[j]@[a].val());
        }
        assert forall|a: int| 0 <= a < n implies (#[trigger] t.ts@[j]@[a]).val() == if a
            < lw.multiplicities@.len() {
            lw.multiplicities@[a].val()
        } else {
            0
        } by {
            assert(vals(t.ts@[j]@)[a] == t.ts@[j]@[a].val());
        }
        let r = self.per_table_r_logup@[j].val();
        assert forall|a: int| 0 <= a < n implies ((t.w@[j]@[a].val() + r)
            * (#[trigger] t.inv_w@[j]@[a]).val()) % p == 1 by {
            assert(vals(t.inv_w@[j]@)[a] == t.inv_w@[j]@[a].val());
            assert(vals(t.w@[j]@)[a] == t.w@[j]@[a].val());
        }
        assert forall|a: int| 0 <= a < n implies ((t.T@[j]@[a].val() + r)
            * (#[trigger] t.inv_t@[j]@[a]).val()) % p == t.ts@[j]@[a].val() by {
            assert(vals(t.inv_t@[j]@)[a] == t.inv_t@[j]@[a].val());
            assert(vals(t.T@[j]@)[a] == t.T@[j]@[a].val());
            assert(vals(t.ts@[j]@)[a] == t.ts@[j]@[a].val());
            E::Scalar::lemma_val(t.ts@[j]@[a]);
            lemma_reduced(p, t.ts@[j]@[a].val());
        }
        assert(vals(t.eq_w@[j]@).len() == t.eq_w@[j]@.len());
        assert(vals(t.eq_t@[j]@).len() == t.eq_t@[j]@.len());
        assert forall|a: int| 0 <= a < n implies (#[trigger] t.eq_w@[j]@[a]).val() == pow(
            draws[j].tau_w.val(),
            a as nat,
        ) % p by {
            assert(vals(t.eq_w@[j]@)[a] == t.eq_w@[j]@[a].val());
            law_power(p, draws[j].tau_w.val(), a as nat);
        }
        assert forall|a: int| 0 <= a < n implies (#[trigger] t.eq_t@[j]@[a]).val() == pow(
            draws[j].tau_t.val(),
            a as nat,
        ) % p by {
            assert(vals(t.eq_t@[j]@)[a] == t.eq_t@[j]@[a].val());
            law_power(p, draws[j].tau_t.val(), a as nat);
        }
        assert(logs::<E>(t.comm_L@)[j] == commitments(pp.ck, vecs(t.w@))[j]);
        assert(logs::<E>(t.comm_ts@)[j] == commitments(pp.ck, vecs(t.ts@))[j]);
        assert(logs::<E>(t.comm_inv_w@)[j] == commitments(pp.ck, vecs(t.inv_w@))[j]);
        assert(logs::<E>(t.comm_inv_t@)[j] == commitments(pp.ck, vecs(t.inv_t@))[j]);
        law_padding_keeps_commitment(pp.ck, vals(lw.witness@), n, 0);
        if lw.multiplicities@.len() <= n {
            law_padding_keeps_commitment(pp.ck, vals(lw.multiplicities@), n, 0);
        }
    }

    /// What the lookups of a chain add up to is what those of its envelope add up to. Under the
    /// challenge `r` of the envelope, let `a` hold the inverses of the running lookups plus `r`,
    /// `b` the quotients of the running multiplicities by the running table plus `r`, and `x` the
    /// inverse of `r`: then the quotients of the envelope add up as `b` does, and its inverses as
    /// `a` does and an `x` for every place that was filled up. So where the running lookups are
    /// right, `a` and `b` adding up to the same, those of the envelope are.
    pub proof fn law_chain_sums_kept<C: StepCircuit<E::Scalar>>(
        self,
        pp: PublicParams<E, C>,
        digest: int,
        s: RecursiveSNARK<E, C>,
        t: LogUpTables<E>,
        draws: Seq<TableDraw<E::Scalar>>,
        j: int,
        a: Seq<int>,
        b: Seq<int>,
        x: int,
    )
        requires
            pp.wf(),
            self.closes_chain(pp, digest, s, t, draws),
            all_closable(s.running_lws@, draws, pp.structure.S.num_cons as nat),
            none_longer(s.running_lws@, pp.structure.S.num_cons as nat),
            lws_shaped(s.running_lws@, pp.structure.S.num_cons as nat),
            0 <= j < s.running_lws@.len(),
            s.running_lws@[j].multiplicities@.len() <= pp.structure.S.num_cons,
            a.len() == s.running_lws@[j].witness@.len(),
            b.len() == s.running_lws@[j].multiplicities@.len(),
            forall|i: int|
                0 <= i < a.len() ==> ((s.running_lws@[j].witness@[i].val()
                    + self.per_table_r_logup@[j].val()) * #[trigger] a[i]) % E::Scalar::modulus()
                    == 1,
            forall|i: int|
                0 <= i < b.len() ==> ((s.running_lws@[j].table@[i].val()
                    + self.per_table_r_logup@[j].val()) * #[trigger] b[i]) % E::Scalar::modulus()
                    == s.running_lws@[j].multiplicities@[i].val(),
            (self.per_table_r_logup@[j].val() * x) % E::Scalar::modulus() == 1,
        ensures
            ({
                let p = E::Scalar::modulus();
                let n = pp.structure.S.num_cons as nat;
                let inv_w = sum(n, |i: int| t.inv_w@[j]@[i].val());
                let inv_t = sum(n, |i: int| t.inv_t@[j]@[i].val());
                let filled = (n - a.len()) * x;
                &&& inv_w % p == (sum(a.len(), |i: int| a[i]) + filled) % p
                &&& inv_t % p == sum(b.len(), |i: int| b[i]) % p
                &&& (inv_w - filled) % p == inv_t % p <==> sum(a.len(), |i: int| a[i]) % p == sum(
                    b.len(),
                    |i: int| b[i],
                ) % p
            }),
    {
        let p = E::Scalar::modulus();
        let n = pp.structure.S.num_cons as nat;
        let lw = s.running_lws@[j];
        let r = self.per_table_r_logup@[j].val();
        E::Scalar::lemma_modulus();
        lemma_reduced(p, 0);
        self.law_chain_tables_published(pp, digest, s, t, draws, j);
        assert(closable(lw, n, draws[j].r_logup.val()));
        assert(table_closed(t, s.running_lws@, draws, n, j));
        assert(self.claims().r_logup == t.claims().r_logup);
        assert(self.claims().T_lookup == t.claims().T_lookup);
        let f = |i: int| t.inv_w@[j]@[i].val();
        let g = |i: int| t.inv_t@[j]@[i].val();
        let fa = |i: int| a[i];
        let gb = |i: int| b[i];
        let T = self.per_table_T_lookup@[j]@;
        assert forall|i: int| 0 <= i < a.len() implies #[trigger] f(i) % p == fa(i) % p by {
            let c = lw.witness@[i].val() + r;
            assert(t.w@[j]@[i].val() == lw.witness@[i].val());
            assert((c * t.inv_w@[j]@[i].val()) % p == 1);
            assert((c * a[i]) % p == 1);
            lemma_same_quotient(p, c, f(i), a[i]);
        }
        lemma_sum_cong(p, a.len(), f, fa);
        assert forall|i: int| a.len() <= i < n implies #[trigger] f(i) % p == x % p by {
            assert(t.w@[j]@[i].val() == 0);
            assert(((t.w@[j]@[i].val() + r) * t.inv_w@[j]@[i].val()) % p == 1);
            lemma_same_quotient(p, r, f(i), x);
        }
        lemma_sum_constant_tail(p, a.len(), n, f, x);
        let filled = (n - a.len()) * x;
        lemma_cong_add(p, sum(a.len(), f), filled, sum(a.len(), fa), filled);
        assert forall|i: int| 0 <= i < n implies (T[i].val() + r) % p != 0 by {
            assert(table_of(lw, n)[i] == T[i].val()) by {
                assert(vals(t.T@[j]@)[i] == t.T@[j]@[i].val());
            }
            assert((table_of(lw, n)[i] + r) % p != 0);
        }
        assert forall|i: int| 0 <= i < b.len() implies #[trigger] g(i) % p == gb(i) % p by {
            let c = lw.table@[i].val() + r;
            assert(T[i].val() == lw.table@[i].val());
            assert((T[i].val() + r) % p != 0);
            assert(((T[i].val() + r) * t.inv_t@[j]@[i].val()) % p == t.ts@[j]@[i].val());
            assert((c * b[i]) % p == lw.multiplicities@[i].val());
            assert(g(i) * c == c * g(i) && b[i] * c == c * b[i]) by (nonlinear_arith);
            lemma_cancel(p, g(i), b[i], c);
        }
        lemma_sum_cong(p, b.len(), g, gb);
        assert forall|i: int| b.len() <= i < n implies #[trigger] g(i) % p == 0int % p by {
            assert((T[i].val() + r) % p != 0);
            assert(((T[i].val() + r) * t.inv_t@[j]@[i].val()) % p == t.ts@[j]@[i].val());
            lemma_no_zero_divisors(p, T[i].val() + r, g(i));
        }
        lemma_sum_constant_tail(p, b.len(), n, g, 0);
        assert((n - b.len()) * 0 == 0) by (nonlinear_arith);
        let (u, v) = (sum(n, f), sum(a.len(), fa));
        lemma_cong_sub(p, u, filled, v + filled, filled);
    }
}

/// Two numbers that a number makes one of are congruent.
proof fn lemma_same_quotient(p: int, c: int, u: int, v: int)
    requires
        is_prime(p),
        (c * u) % p == 1,
        (c * v) % p == 1,
    ensures
        u % p == v % p,
{
    lemma_reduced(p, 0);
    if c % p == 0 {
        lemma_cong_mul(p, c, u, 0, u);
        assert(0 * u == 0);
    }
    assert(u * c == c * u && v * c == c * v) by (nonlinear_arith);
    lemma_cancel(p, u, v, c);
}

} // verus!
