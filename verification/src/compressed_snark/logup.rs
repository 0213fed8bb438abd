//! The vectors and commitments of the lookups that an envelope closes.

use super::closing::vecs;
use crate::commitment::{logs, CommitmentKey};
use crate::engine::{Engine, Group};
use crate::errors::NovaError;
use crate::field::{lemma_cong_add, lemma_cong_mul, lemma_reduced, lemma_residue, PrimeField};
use crate::lookup_sumcheck::{
    batch_invert_plus_r, inverted_plus_r, invertible_plus_r, quotients_plus_r,
};
use crate::poly::vals;
use crate::powers::{law_power, powers, powers_of};
use crate::random::{
    law_scalar_words_counted, law_words_counted, scalar_word, seeded_scalar, seeded_scalars,
    word_after, SeededRng, DRAWS_PER_SCALAR,
};
use vstd::arithmetic::power::pow;
use vstd::prelude::*;

verus! {

/// The commitments to vectors, without blinding.
pub open spec fn commitments<E: Engine>(ck: CommitmentKey<E>, v: Seq<Seq<int>>) -> Seq<int> {
    Seq::new(v.len(), |j: int| ck.commitment(v[j], 0))
}

/// No vector is longer than the key.
pub open spec fn vecs_fit<F: PrimeField>(v: Seq<Vec<F>>, n: nat) -> bool {
    forall|j: int| 0 <= j < v.len() ==> (#[trigger] v[j])@.len() <= n
}

/// The commitments to vectors, without blinding.
fn commit_all<E: Engine>(ck: &CommitmentKey<E>, v: &[Vec<E::Scalar>]) -> (r: Vec<E::GE>)
    requires
        vecs_fit(v@, ck.ck@.len()),
    ensures
        logs::<E>(r@) == commitments(*ck, vecs(v@)),
        r@.len() == v@.len(),
{
    let zero = E::Scalar::zero();
    let n: usize = v.len();
    let mut r: Vec<E::GE> = Vec::new();
    let mut j: usize = 0;
    while j < n
        invariant
            j <= n,
            n == v@.len(),
            zero.val() == 0,
            vecs_fit(v@, ck.ck@.len()),
            r@.len() == j,
            forall|i: int| 0 <= i < j ==> (#[trigger] r@[i]).log() == ck.commitment(vals(v@[i]@), 0),
        decreases n - j,
    {
        r.push(ck.commit(&v[j], &zero));
        j = j + 1;
    }
    proof {
        assert(logs::<E>(r@) =~= commitments(*ck, vecs(v@)));
    }
    r
}

/// The commitments to the lookups, the multiplicities and their inverses, table by table and
/// without blinding.
pub fn build_per_table_commitments<E: Engine>(
    ck: &CommitmentKey<E>,
    per_table_w: &[Vec<E::Scalar>],
    per_table_ts: &[Vec<E::Scalar>],
    per_table_inv_w: &[Vec<E::Scalar>],
    per_table_inv_t: &[Vec<E::Scalar>],
) -> (r: (Vec<E::GE>, Vec<E::GE>, Vec<E::GE>, Vec<E::GE>))
    requires
        per_table_ts@.len() == per_table_w@.len(),
        per_table_inv_w@.len() == per_table_w@.len(),
        per_table_inv_t@.len() == per_table_w@.len(),
        vecs_fit(per_table_w@, ck.ck@.len()),
        vecs_fit(per_table_ts@, ck.ck@.len()),
        vecs_fit(per_table_inv_w@, ck.ck@.len()),
        vecs_fit(per_table_inv_t@, ck.ck@.len()),
    ensures
        logs::<E>(r.0@) == commitments(*ck, vecs(per_table_w@)),
        logs::<E>(r.1@) == commitments(*ck, vecs(per_table_ts@)),
        logs::<E>(r.2@) == commitments(*ck, vecs(per_table_inv_w@)),
        logs::<E>(r.3@) == commitments(*ck, vecs(per_table_inv_t@)),
        r.0@.len() == per_table_w@.len(),
        r.1@.len() == per_table_w@.len(),
        r.2@.len() == per_table_w@.len(),
        r.3@.len() == per_table_w@.len(),
{
    (
        commit_all(ck, per_table_w),
        commit_all(ck, per_table_ts),
        commit_all(ck, per_table_inv_w),
        commit_all(ck, per_table_inv_t),
    )
}

/// What belongs to the lookups in one table under the challenge `r` and the weights `tau_w` and
/// `tau_t`.
pub struct TableInverses<F: PrimeField> {
    /// The inverses of `w + r`.
    pub inv_w: Vec<F>,
    /// The quotients of `ts` by `T + r`.
    pub inv_t: Vec<F>,
    /// The powers of `tau_w`.
    pub eq_w: Vec<F>,
    /// The powers of `tau_t`.
    pub eq_t: Vec<F>,
}

/// The inverses of the lookups in one table and its weights; an error where `w + r` or `T + r`
/// vanishes in some place.
pub fn table_inverses<F: PrimeField>(
    w: &Vec<F>,
    ts: &Vec<F>,
    T: &Vec<F>,
    r: F,
    tau_w: F,
    tau_t: F,
) -> (res: Result<TableInverses<F>, NovaError>)
    requires
        ts@.len() == T@.len(),
    ensures
        res is Ok <==> invertible_plus_r(F::modulus(), vals(w@), r.val()) && invertible_plus_r(
            F::modulus(),
            vals(T@),
            r.val(),
        ),
        res is Err ==> res == Err::<TableInverses<F>, NovaError>(NovaError::InvalidInversion),
        res is Ok ==> {
            let o = res->Ok_0;
            &&& inverted_plus_r(F::modulus(), vals(w@), r.val(), vals(o.inv_w@))
            &&& quotients_plus_r(F::modulus(), vals(T@), vals(ts@), r.val(), vals(o.inv_t@))
            &&& vals(o.eq_w@) == powers(F::modulus(), tau_w.val(), w@.len())
            &&& vals(o.eq_t@) == powers(F::modulus(), tau_t.val(), T@.len())
            &&& o.inv_w@.len() == w@.len()
            &&& o.inv_t@.len() == T@.len()
        },
{
    let ghost p = F::modulus();
    let inv_w = match batch_invert_plus_r(w, &r) {
        Ok(x) => x,
        Err(_) => {
            return Err(NovaError::InvalidInversion);
        },
    };
    let raw = match batch_invert_plus_r(T, &r) {
        Ok(x) => x,
        Err(_) => {
            return Err(NovaError::InvalidInversion);
        },
    };
    let n: usize = T.len();
    let mut inv_t: Vec<F> = Vec::new();
    let mut i: usize = 0;
    proof {
        assert(vals(raw@).len() == vals(T@).len());
    }
    while i < n
        invariant
            i <= n,
            n == T@.len(),
            n == ts@.len(),
            n == raw@.len(),
            p == F::modulus(),
            inverted_plus_r(p, vals(T@), r.val(), vals(raw@)),
            inv_t@.len() == i,
            forall|k: int|
                0 <= k < i ==> 0 <= #[trigger] vals(inv_t@)[k] < p && ((vals(T@)[k] + r.val())
                    * vals(inv_t@)[k]) % p == vals(ts@)[k] % p,
        decreases n - i,
    {
        let ghost before = inv_t@;
        let q = raw[i].times(ts[i]);
        inv_t.push(q);
        proof {
            F::lemma_modulus();
            F::lemma_val(q);
            let s = vals(T@)[i as int] + r.val();
            let x = vals(raw@)[i as int];
            let m = vals(ts@)[i as int];
            assert(0 <= x < p && (s * x) % p == 1);
            lemma_residue(p, x * m);
            lemma_cong_mul(p, s, q.val(), s, x * m);
            assert(s * (x * m) == (s * x) * m) by (nonlinear_arith);
            lemma_reduced(p, 1);
            lemma_cong_mul(p, s * x, m, 1, m);
            assert(1 * m == m);
            assert forall|k: int| 0 <= k < i + 1 implies 0 <= #[trigger] vals(inv_t@)[k] < p && ((
            vals(T@)[k] + r.val()) * vals(inv_t@)[k]) % p == vals(ts@)[k] % p by {
                if k < i {
                    assert(vals(inv_t@)[k] == vals(before)[k]);
                }
            }
        }
        i = i + 1;
    }
    proof {
        assert(vals(inv_w@).len() == vals(w@).len());
    }
    Ok(
        TableInverses {
            inv_w,
            inv_t,
            eq_w: powers_of(tau_w, w.len()),
            eq_t: powers_of(tau_t, T.len()),
        },
    )
}

/// What is drawn for one table, as plain integers.
pub struct DrawnTable {
    pub w: Seq<int>,
    pub ts: Seq<int>,
    pub T: Seq<int>,
    pub r: int,
    pub tau_w: int,
    pub tau_t: int,
}

/// The word of the stream behind the vectors of one table.
pub open spec fn challenge_word(word: u64, n: nat) -> u64 {
    scalar_word(scalar_word(scalar_word(word, n), n), n)
}

/// What is drawn for one table from a word of the stream on: three vectors, the challenge and
/// the two weights.
pub open spec fn drawn_table<F: PrimeField>(seed: Seq<u8>, word: u64, n: nat) -> DrawnTable {
    let word1 = scalar_word(word, n);
    let word2 = scalar_word(word1, n);
    let word3 = challenge_word(word, n);
    let word4 = word_after(word3, DRAWS_PER_SCALAR as nat);
    let word5 = word_after(word4, DRAWS_PER_SCALAR as nat);
    DrawnTable {
        w: seeded_scalars::<F>(seed, word, n),
        ts: seeded_scalars::<F>(seed, word1, n),
        T: seeded_scalars::<F>(seed, word2, n),
        r: seeded_scalar::<F>(seed, word3),
        tau_w: seeded_scalar::<F>(seed, word4),
        tau_t: seeded_scalar::<F>(seed, word5),
    }
}

/// The word of the stream at which table `j` begins.
pub open spec fn table_word(word: u64, n: nat, j: nat) -> u64
    decreases j,
{
    if j == 0 {
        word
    } else {
        let word3 = challenge_word(table_word(word, n, (j - 1) as nat), n);
        let word4 = word_after(word3, DRAWS_PER_SCALAR as nat);
        let word5 = word_after(word4, DRAWS_PER_SCALAR as nat);
        word_after(word5, DRAWS_PER_SCALAR as nat)
    }
}

/// What is drawn for table `j`.
pub open spec fn drawn<F: PrimeField>(seed: Seq<u8>, word: u64, n: nat, j: int) -> DrawnTable {
    drawn_table::<F>(seed, table_word(word, n, j as nat), n)
}

/// The inverses for what is drawn exist.
pub open spec fn drawn_invertible(p: int, d: DrawnTable) -> bool {
    invertible_plus_r(p, d.w, d.r) && invertible_plus_r(p, d.T, d.r)
}

/// The vectors of one table are those that belong to what is drawn.
pub open spec fn drawn_matches(
    p: int,
    d: DrawnTable,
    w: Seq<int>,
    ts: Seq<int>,
    inv_w: Seq<int>,
    inv_t: Seq<int>,
    T: Seq<int>,
    eq_w: Seq<int>,
    eq_t: Seq<int>,
    r: int,
) -> bool {
    &&& w == d.w
    &&& ts == d.ts
    &&& T == d.T
    &&& r == d.r
    &&& inverted_plus_r(p, d.w, d.r, inv_w)
    &&& quotients_plus_r(p, d.T, d.ts, d.r, inv_t)
    &&& eq_w == powers(p, d.tau_w, d.w.len())
    &&& eq_t == powers(p, d.tau_t, d.T.len())
}

/// The vectors of `k` tables: the lookups, the multiplicities, their inverses, the tables, the
/// weights of either side and the challenges.
pub type TableVectors<F> = (
    Vec<Vec<F>>,
    Vec<Vec<F>>,
    Vec<Vec<F>>,
    Vec<Vec<F>>,
    Vec<Vec<F>>,
    Vec<Vec<F>>,
    Vec<Vec<F>>,
    Vec<F>,
);

/// Every table matches what is drawn for it.
pub open spec fn all_drawn<F: PrimeField>(
    v: TableVectors<F>,
    seed: Seq<u8>,
    word: u64,
    n: nat,
    k: nat,
) -> bool {
    &&& v.0@.len() == k
    &&& v.1@.len() == k
    &&& v.2@.len() == k
    &&& v.3@.len() == k
    &&& v.4@.len() == k
    &&& v.5@.len() == k
    &&& v.6@.len() == k
    &&& v.7@.len() == k
    &&& forall|j: int|
        0 <= j < k ==> #[trigger] drawn_matches(
            F::modulus(),
            drawn::<F>(seed, word, n, j),
            vals(v.0@[j]@),
            vals(v.1@[j]@),
            vals(v.2@[j]@),
            vals(v.3@[j]@),
            vals(v.4@[j]@),
            vals(v.5@[j]@),
            vals(v.6@[j]@),
            v.7@[j].val(),
        )
}

/// Random lookups in `k` random tables of `num_cons` entries, with their inverses and weights; an
/// error where a challenge meets an entry.
pub fn build_honest_logup_witnesses<E: Engine>(
    rng: &mut SeededRng,
    num_cons: usize,
    k: usize,
) -> (r: Result<TableVectors<E::Scalar>, NovaError>)
    ensures
        final(rng).seed == old(rng).seed,
        r is Ok <==> forall|j: int|
            0 <= j < k ==> drawn_invertible(
                E::Scalar::modulus(),
                #[trigger] drawn::<E::Scalar>(
                    old(rng).seed@,
                    old(rng).word,
                    num_cons as nat,
                    j,
                ),
            ),
        r is Err ==> r == Err::<TableVectors<E::Scalar>, NovaError>(NovaError::InvalidInversion),
        r is Ok ==> {
            &&& all_drawn(r->Ok_0, old(rng).seed@, old(rng).word, num_cons as nat, k as nat)
            &&& final(rng).word == table_word(old(rng).word, num_cons as nat, k as nat)
        },
{
    let ghost p = E::Scalar::modulus();
    let ghost n = num_cons as nat;
    let mut per_table_w: Vec<Vec<E::Scalar>> = Vec::new();
    let mut per_table_ts: Vec<Vec<E::Scalar>> = Vec::new();
    let mut per_table_inv_w: Vec<Vec<E::Scalar>> = Vec::new();
    let mut per_table_inv_t: Vec<Vec<E::Scalar>> = Vec::new();
    let mut per_table_T: Vec<Vec<E::Scalar>> = Vec::new();
    let mut per_table_eq_w: Vec<Vec<E::Scalar>> = Vec::new();
    let mut per_table_eq_t: Vec<Vec<E::Scalar>> = Vec::new();
    let mut r_logup_per_table: Vec<E::Scalar> = Vec::new();
    let mut j: usize = 0;
    while j < k
        invariant
            j <= k,
            p == E::Scalar::modulus(),
            n == num_cons,
            rng.seed == old(rng).seed,
            rng.word == table_word(old(rng).word, n, j as nat),
            forall|i: int|
                0 <= i < j ==> drawn_invertible(
                    p,
                    #[trigger] drawn::<E::Scalar>(old(rng).seed@, old(rng).word, n, i),
                ),
            per_table_w@.len() == j,
            per_table_ts@.len() == j,
            per_table_inv_w@.len() == j,
            per_table_inv_t@.len() == j,
            per_table_T@.len() == j,
            per_table_eq_w@.len() == j,
            per_table_eq_t@.len() == j,
            r_logup_per_table@.len() == j,
            forall|i: int|
                0 <= i < j ==> #[trigger] drawn_matches(
                    p,
                    drawn::<E::Scalar>(old(rng).seed@, old(rng).word, n, i),
                    vals(per_table_w@[i]@),
                    vals(per_table_ts@[i]@),
                    vals(per_table_inv_w@[i]@),
                    vals(per_table_inv_t@[i]@),
                    vals(per_table_T@[i]@),
                    vals(per_table_eq_w@[i]@),
                    vals(per_table_eq_t@[i]@),
                    r_logup_per_table@[i].val(),
                ),
        decreases k - j,
    {
        let ghost d = drawn::<E::Scalar>(old(rng).seed@, old(rng).word, n, j as int);
        let w = rng.scalars::<E::Scalar>(num_cons);
        let ts = rng.scalars::<E::Scalar>(num_cons);
        let T = rng.scalars::<E::Scalar>(num_cons);
        let r_logup = rng.scalar::<E::Scalar>();
        let tau_w = rng.scalar::<E::Scalar>();
        let tau_t = rng.scalar::<E::Scalar>();
        let o = match table_inverses(&w, &ts, &T, r_logup, tau_w, tau_t) {
            Ok(o) => o,
            Err(_) => {
                assert(!drawn_invertible(p, d));
                return Err(NovaError::InvalidInversion);
            },
        };
        per_table_w.push(w);
        per_table_ts.push(ts);
        per_table_inv_w.push(o.inv_w);
        per_table_inv_t.push(o.inv_t);
        per_table_T.push(T);
        per_table_eq_w.push(o.eq_w);
        per_table_eq_t.push(o.eq_t);
        r_logup_per_table.push(r_logup);
        j = j + 1;
    }
    Ok(
        (
            per_table_w,
            per_table_ts,
            per_table_inv_w,
            per_table_inv_t,
            per_table_T,
            per_table_eq_w,
            per_table_eq_t,
            r_logup_per_table,
        ),
    )
}

/// Table after table is drawn from the stream: each takes up three vectors of `n` scalars and three
/// scalars more, sixteen words for each scalar. The lookups come first, then the multiplicities,
/// the table, the challenge and the two weights.
pub proof fn law_drawn_in_order<F: PrimeField>(seed: Seq<u8>, word: u64, n: nat, j: nat)
    ensures
        ({
            let m = 0x1_0000_0000_0000_0000int;
            let start = word + 16 * (3 * n + 3) * j;
            let d = drawn::<F>(seed, word, n, j as int);
            &&& table_word(word, n, j) == start % m
            &&& d.w == seeded_scalars::<F>(seed, (start % m) as u64, n)
            &&& d.ts == seeded_scalars::<F>(seed, ((start + 16 * n) % m) as u64, n)
            &&& d.T == seeded_scalars::<F>(seed, ((start + 32 * n) % m) as u64, n)
            &&& d.r == seeded_scalar::<F>(seed, ((start + 48 * n) % m) as u64)
            &&& d.tau_w == seeded_scalar::<F>(seed, ((start + 48 * n + 16) % m) as u64)
            &&& d.tau_t == seeded_scalar::<F>(seed, ((start + 48 * n + 32) % m) as u64)
        }),
    decreases j,
{
    let m = 0x1_0000_0000_0000_0000int;
    let start = word + 16 * (3 * n + 3) * j;
    if j > 0 {
        let i = (j - 1) as nat;
        let before = word + 16 * (3 * n + 3) * i;
        law_drawn_in_order::<F>(seed, word, n, i);
        lemma_table_words(table_word(word, n, i), n);
        let c = 16 * (3 * n + 3);
        assert(c * j == c * i + c) by (nonlinear_arith)
            requires
                j == i + 1,
        ;
        lemma_moved(before, 48 * n as int + 48);
        assert(start == before + (48 * n + 48));
    } else {
        assert(16 * (3 * n + 3) * j == 0) by (nonlinear_arith)
            requires
                j == 0,
        ;
    }
    assert(table_word(word, n, j) == start % m);
    lemma_table_words(table_word(word, n, j), n);
    lemma_moved(start, 16 * n as int);
    lemma_moved(start, 32 * n as int);
    lemma_moved(start, 48 * n as int);
    lemma_moved(start, 48 * n as int + 16);
    lemma_moved(start, 48 * n as int + 32);
}

/// The words of what is drawn for one table.
proof fn lemma_table_words(word: u64, n: nat)
    ensures
        ({
            let m = 0x1_0000_0000_0000_0000int;
            let word3 = challenge_word(word, n);
            let word4 = word_after(word3, 8);
            let word5 = word_after(word4, 8);
            &&& scalar_word(word, n) == (word + 16 * n) % m
            &&& scalar_word(scalar_word(word, n), n) == (word + 32 * n) % m
            &&& word3 == (word + 48 * n) % m
            &&& word4 == (word + 48 * n + 16) % m
            &&& word5 == (word + 48 * n + 32) % m
            &&& word_after(word5, 8) == (word + 48 * n + 48) % m
        }),
{
    let w = word as int;
    law_scalar_words_counted(word, n);
    let word1 = scalar_word(word, n);
    law_scalar_words_counted(word1, n);
    lemma_moved(w + 16 * n, 16 * n as int);
    let word2 = scalar_word(word1, n);
    assert(word2 == (w + 32 * n) % 0x1_0000_0000_0000_0000);
    law_scalar_words_counted(word2, n);
    lemma_moved(w + 32 * n, 16 * n as int);
    let word3 = challenge_word(word, n);
    assert(word3 == (w + 48 * n) % 0x1_0000_0000_0000_0000);
    law_words_counted(word3, 8);
    lemma_moved(w + 48 * n, 16);
    let word4 = word_after(word3, 8);
    assert(word4 == (w + 48 * n + 16) % 0x1_0000_0000_0000_0000);
    law_words_counted(word4, 8);
    lemma_moved(w + 48 * n + 16, 16);
    let word5 = word_after(word4, 8);
    assert(word5 == (w + 48 * n + 32) % 0x1_0000_0000_0000_0000);
    law_words_counted(word5, 8);
    lemma_moved(w + 48 * n + 32, 16);
}

/// A word that is counted on.
proof fn lemma_moved(a: int, c: int)
    ensures
        (a % 0x1_0000_0000_0000_0000 + c) % 0x1_0000_0000_0000_0000 == (a + c)
            % 0x1_0000_0000_0000_0000,
{
    let m = 0x1_0000_0000_0000_0000int;
    lemma_residue(m, a);
    lemma_cong_add(m, a % m, c, a, c);
}

/// The vectors of drawn tables are what is drawn: the lookups, the multiplicities, the table and the
/// challenge themselves, true inverses of the lookups and quotients of the multiplicities under the
/// challenge, and as weights of the places the powers of the two numbers drawn for them.
pub proof fn law_drawn_vectors<F: PrimeField>(
    v: TableVectors<F>,
    seed: Seq<u8>,
    word: u64,
    n: nat,
    k: nat,
    j: int,
    i: int,
)
    requires
        all_drawn::<F>(v, seed, word, n, k),
        0 <= j < k,
        0 <= i < n,
    ensures
        ({
            let p = F::modulus();
            let d = drawn::<F>(seed, word, n, j);
            let (w, ts, inv_w, inv_t) = (v.0@[j]@, v.1@[j]@, v.2@[j]@, v.3@[j]@);
            let (T, eq_w, eq_t, r) = (v.4@[j]@, v.5@[j]@, v.6@[j]@, v.7@[j].val());
            &&& w.len() == n
            &&& ts.len() == n
            &&& inv_w.len() == n
            &&& inv_t.len() == n
            &&& T.len() == n
            &&& eq_w.len() == n
            &&& eq_t.len() == n
            &&& w[i].val() == d.w[i]
            &&& ts[i].val() == d.ts[i]
            &&& T[i].val() == d.T[i]
            &&& r == d.r
            &&& ((w[i].val() + r) * inv_w[i].val()) % p == 1
            &&& ((T[i].val() + r) * inv_t[i].val()) % p == ts[i].val()
            &&& eq_w[i].val() == pow(d.tau_w, i as nat) % p
            &&& eq_t[i].val() == pow(d.tau_t, i as nat) % p
        }),
{
    let p = F::modulus();
    F::lemma_modulus();
    let d = drawn::<F>(seed, word, n, j);
    let (w, ts, inv_w, inv_t) = (v.0@[j]@, v.1@[j]@, v.2@[j]@, v.3@[j]@);
    let (T, eq_w, eq_t) = (v.4@[j]@, v.5@[j]@, v.6@[j]@);
    assert(drawn_matches(
        p,
        d,
        vals(w),
        vals(ts),
        vals(inv_w),
        vals(inv_t),
        vals(T),
        vals(eq_w),
        vals(eq_t),
        v.7@[j].val(),
    ));
    assert(d.w.len() == n && d.ts.len() == n && d.T.len() == n);
    assert(vals(w).len() == w.len() && vals(ts).len() == ts.len() && vals(T).len() == T.len());
    assert(vals(inv_w).len() == inv_w.len() && vals(inv_t).len() == inv_t.len());
    assert(vals(eq_w).len() == eq_w.len() && vals(eq_t).len() == eq_t.len());
    assert(vals(w)[i] == w[i].val() && vals(ts)[i] == ts[i].val() && vals(T)[i] == T[i].val());
    assert(vals(inv_w)[i] == inv_w[i].val() && vals(inv_t)[i] == inv_t[i].val());
    assert(vals(eq_w)[i] == eq_w[i].val() && vals(eq_t)[i] == eq_t[i].val());
    law_power(p, d.tau_w, i as nat);
    law_power(p, d.tau_t, i as nat);
    F::lemma_val(ts[i]);
    lemma_reduced(p, ts[i].val());
}

} // verus!
