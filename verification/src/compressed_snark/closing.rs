//! The argument that closes an envelope: that a folded instance and its lookups are satisfied.

use super::bridged::BridgedNeutronInstance;
use super::rejection::{rejection, verdict, Rejection};
use crate::commitment::{copy_scalars, logs, same_key, CommitmentKey};
use crate::digest::{digest, digest_of};
use crate::engine::{Engine, Group};
use crate::errors::NovaError;
use crate::field::{lemma_cong_mul, lemma_reduced, lemma_residue, PrimeField};
use crate::lookup_sumcheck::{inverted_plus_r, quotients_plus_r};
use crate::poly::vals;
use crate::structure::{
    full_vector, full_vector_of, grid_claim, same_structure, Structure,
};
use vstd::prelude::*;

verus! {

/// The values of a sequence of vectors.
pub open spec fn vecs<F: PrimeField>(v: Seq<Vec<F>>) -> Seq<Seq<int>> {
    Seq::new(v.len(), |j: int| vals(v[j]@))
}

/// What is claimed, as plain integers. Group elements are given by their logarithms.
pub struct Statement {
    pub comm_W: int,
    pub comm_E1: int,
    pub comm_E2_pcs: int,
    pub u: int,
    pub X: Seq<int>,
    pub T: int,
    pub T_lookup: Seq<Seq<int>>,
    pub r_logup: Seq<int>,
    pub comm_L: Seq<int>,
    pub comm_ts: Seq<int>,
    pub comm_inv_w: Seq<int>,
    pub comm_inv_t: Seq<int>,
}

/// The vectors that the commitments of a statement open to.
pub struct Opening {
    pub W: Seq<int>,
    pub E1: Seq<int>,
    pub E2: Seq<int>,
    pub w: Seq<Seq<int>>,
    pub ts: Seq<Seq<int>>,
    pub inv_w: Seq<Seq<int>>,
    pub inv_t: Seq<Seq<int>>,
}

/// The public side of the lookups, table by table.
pub struct TableClaims<'a, E: Engine> {
    pub T_lookup: &'a Vec<Vec<E::Scalar>>,
    pub r_logup: &'a Vec<E::Scalar>,
    pub comm_L: &'a Vec<E::GE>,
    pub comm_ts: &'a Vec<E::GE>,
    pub comm_inv_w: &'a Vec<E::GE>,
    pub comm_inv_t: &'a Vec<E::GE>,
}

/// The private side of the lookups, table by table.
pub struct TableWitnesses<'a, E: Engine> {
    pub w: &'a Vec<Vec<E::Scalar>>,
    pub ts: &'a Vec<Vec<E::Scalar>>,
    pub inv_w: &'a Vec<Vec<E::Scalar>>,
    pub inv_t: &'a Vec<Vec<E::Scalar>>,
    pub eq_w: &'a Vec<Vec<E::Scalar>>,
    pub eq_t: &'a Vec<Vec<E::Scalar>>,
}

/// The statement about an instance and its lookups.
pub open spec fn statement<E: Engine>(
    U: BridgedNeutronInstance<E>,
    tables: TableClaims<E>,
) -> Statement {
    Statement {
        comm_W: U.comm_W.log(),
        comm_E1: U.comm_E1.log(),
        comm_E2_pcs: U.comm_E2_pcs.log(),
        u: U.u.val(),
        X: vals(U.X@),
        T: U.T.val(),
        T_lookup: vecs(tables.T_lookup@),
        r_logup: vals(tables.r_logup@),
        comm_L: logs::<E>(tables.comm_L@),
        comm_ts: logs::<E>(tables.comm_ts@),
        comm_inv_w: logs::<E>(tables.comm_inv_w@),
        comm_inv_t: logs::<E>(tables.comm_inv_t@),
    }
}

/// The vectors of a witness.
pub open spec fn opening<E: Engine>(
    W: Seq<E::Scalar>,
    E1: Seq<E::Scalar>,
    E2: Seq<E::Scalar>,
    tables: TableWitnesses<E>,
) -> Opening {
    Opening {
        W: vals(W),
        E1: vals(E1),
        E2: vals(E2),
        w: vecs(tables.w@),
        ts: vecs(tables.ts@),
        inv_w: vecs(tables.inv_w@),
        inv_t: vecs(tables.inv_t@),
    }
}

/// The lookups in one table are opened: the commitments are those to the vectors, `inv_w` holds
/// the inverses of `w + r`, and `inv_t` the quotients of `ts` by `T + r`.
pub open spec fn table_opened<E: Engine>(
    ck: CommitmentKey<E>,
    n: nat,
    s: Statement,
    o: Opening,
    j: int,
) -> bool {
    let p = E::Scalar::modulus();
    &&& o.w[j].len() == n
    &&& o.ts[j].len() == n
    &&& s.T_lookup[j].len() == n
    &&& inverted_plus_r(p, o.w[j], s.r_logup[j], o.inv_w[j])
    &&& quotients_plus_r(p, s.T_lookup[j], o.ts[j], s.r_logup[j], o.inv_t[j])
    &&& s.comm_L[j] == ck.commitment(o.w[j], 0)
    &&& s.comm_ts[j] == ck.commitment(o.ts[j], 0)
    &&& s.comm_inv_w[j] == ck.commitment(o.inv_w[j], 0)
    &&& s.comm_inv_t[j] == ck.commitment(o.inv_t[j], 0)
}

/// There is one entry per table everywhere.
pub open spec fn counts_agree(s: Statement, o: Opening) -> bool {
    let k = s.comm_L.len();
    &&& s.T_lookup.len() == k
    &&& s.r_logup.len() == k
    &&& s.comm_ts.len() == k
    &&& s.comm_inv_w.len() == k
    &&& s.comm_inv_t.len() == k
    &&& o.w.len() == k
    &&& o.ts.len() == k
    &&& o.inv_w.len() == k
    &&& o.inv_t.len() == k
}

/// The folded instance is opened: the vectors have the right lengths, the commitments are those
/// to the vectors, without blinding, and the claim `T` is the weighted sum over the constraints.
pub open spec fn instance_opened<E: Engine>(
    ck: CommitmentKey<E>,
    structure: Structure<E>,
    s: Statement,
    o: Opening,
) -> bool {
    &&& o.W.len() == structure.S.num_vars
    &&& s.X.len() == structure.S.num_io
    &&& o.E1.len() == structure.left
    &&& o.E2.len() == structure.right
    &&& s.comm_W == ck.commitment(o.W, 0)
    &&& s.comm_E1 == ck.commitment(o.E1, 0)
    &&& s.comm_E2_pcs == ck.commitment(o.E2, 0)
    &&& s.T == grid_claim(structure.S, o.E1, o.E2, full_vector(o.W, s.u, s.X))
}

/// The vectors open the statement.
pub open spec fn closes<E: Engine>(
    ck: CommitmentKey<E>,
    structure: Structure<E>,
    s: Statement,
    o: Opening,
) -> bool {
    &&& instance_opened(ck, structure, s, o)
    &&& counts_agree(s, o)
    &&& forall|j: int|
        0 <= j < s.comm_L.len() ==> #[trigger] table_opened(
            ck,
            structure.S.num_cons as nat,
            s,
            o,
            j,
        )
}

/// A key long enough for every vector of a structure.
pub open spec fn key_fits<E: Engine>(ck: CommitmentKey<E>, structure: Structure<E>) -> bool {
    &&& structure.S.num_vars <= ck.ck@.len()
    &&& structure.S.num_cons <= ck.ck@.len()
    &&& structure.left + structure.right <= ck.ck@.len()
}

/// An argument that closes an envelope. What is proven with honest vectors is accepted.
pub trait ClosingArgument<E: Engine>: Sized {
    /// What the prover works with.
    type ProverKey;

    /// What the verifier works with.
    type VerifierKey;

    /// What the prover hands over.
    type Proof;

    /// The prover's key belongs to a commitment key and a structure.
    spec fn pk_for(
        pk: Self::ProverKey,
        ck: CommitmentKey<E>,
        structure: Structure<E>,
    ) -> bool;

    /// The verifier's key belongs to a commitment key and a structure.
    spec fn vk_for(
        vk: Self::VerifierKey,
        ck: CommitmentKey<E>,
        structure: Structure<E>,
    ) -> bool;

    /// The digest of the prover's key.
    spec fn pk_digest(pk: Self::ProverKey) -> int;

    /// The digest of the verifier's key.
    spec fn vk_digest(vk: Self::VerifierKey) -> int;

    /// The verifier's key can be worked with.
    spec fn vk_valid(vk: Self::VerifierKey) -> bool;

    /// Why a proof is rejected, if it is.
    spec fn rejection(vk: Self::VerifierKey, s: Statement, proof: Self::Proof) -> Option<
        Rejection,
    >;

    /// The proof is what the prover makes of a statement, of vectors and of the weights that the
    /// entries of the tables are summed up with.
    spec fn made_of(
        s: Statement,
        o: Opening,
        eq_w: Seq<Seq<int>>,
        eq_t: Seq<Seq<int>>,
        proof: Self::Proof,
    ) -> bool;

    /// Keys that belong to the same commitment key and structure have the same digest.
    proof fn lemma_digests(
        pk: Self::ProverKey,
        vk: Self::VerifierKey,
        ck: CommitmentKey<E>,
        structure: Structure<E>,
    )
        requires
            Self::pk_for(pk, ck, structure),
            Self::vk_for(vk, ck, structure),
        ensures
            Self::pk_digest(pk) == Self::vk_digest(vk),
    ;

    /// The keys for a commitment key and a structure.
    fn setup(ck: &CommitmentKey<E>, structure: &Structure<E>) -> (r: Result<
        (Self::ProverKey, Self::VerifierKey),
        NovaError,
    >)
        requires
            structure.wf(),
        ensures
            r is Ok <==> key_fits(*ck, *structure),
            r is Err ==> r == Err::<(Self::ProverKey, Self::VerifierKey), NovaError>(
                NovaError::InvalidCommitmentKeyLength,
            ),
            r is Ok ==> {
                &&& Self::pk_for(r->Ok_0.0, *ck, *structure)
                &&& Self::vk_for(r->Ok_0.1, *ck, *structure)
                &&& Self::vk_valid(r->Ok_0.1)
            },
    ;

    /// The digest of the prover's key.
    fn prover_digest(pk: &Self::ProverKey) -> (r: E::Scalar)
        ensures
            r.val() == Self::pk_digest(*pk),
    ;

    /// The digest of the verifier's key.
    fn verifier_digest(vk: &Self::VerifierKey) -> (r: E::Scalar)
        ensures
            r.val() == Self::vk_digest(*vk),
    ;

    /// Proves that the vectors open the statement.
    fn prove(
        ck: &CommitmentKey<E>,
        pk: &Self::ProverKey,
        structure: &Structure<E>,
        U: &BridgedNeutronInstance<E>,
        W: &Vec<E::Scalar>,
        E1: &Vec<E::Scalar>,
        E2: &Vec<E::Scalar>,
        claims: TableClaims<E>,
        witnesses: TableWitnesses<E>,
    ) -> (r: Result<Self::Proof, NovaError>)
        requires
            structure.wf(),
            Self::pk_for(*pk, *ck, *structure),
        ensures
            closes(*ck, *structure, statement(*U, claims), opening::<E>(W@, E1@, E2@, witnesses))
                ==> r is Ok && forall|vk: Self::VerifierKey| #[trigger]
                Self::vk_for(vk, *ck, *structure) ==> Self::rejection(
                    vk,
                    statement(*U, claims),
                    r->Ok_0,
                ) is None,
            r is Ok ==> Self::made_of(
                statement(*U, claims),
                opening::<E>(W@, E1@, E2@, witnesses),
                vecs(witnesses.eq_w@),
                vecs(witnesses.eq_t@),
                r->Ok_0,
            ),
    ;

    /// Verifies a proof.
    fn verify(
        vk: &Self::VerifierKey,
        U: &BridgedNeutronInstance<E>,
        claims: TableClaims<E>,
        proof: &Self::Proof,
    ) -> (r: Result<(), NovaError>)
        requires
            Self::vk_valid(*vk),
        ensures
            verdict(r, Self::rejection(*vk, statement(*U, claims), *proof)),
    ;
}

/// A copy of vectors.
pub fn copy_vecs<F: PrimeField>(v: &Vec<Vec<F>>) -> (r: Vec<Vec<F>>)
    ensures
        vecs(r@) == vecs(v@),
        r@.len() == v@.len(),
{
    let n: usize = v.len();
    let mut r: Vec<Vec<F>> = Vec::new();
    let mut i: usize = 0;
    while i < n
        invariant
            i <= n,
            n == v@.len(),
            r@.len() == i,
            forall|j: int| 0 <= j < i ==> (#[trigger] r@[j])@ == v@[j]@,
        decreases n - i,
    {
        r.push(copy_scalars(&v[i]));
        i = i + 1;
    }
    proof {
        assert(vecs(r@) =~= vecs(v@));
    }
    r
}

/// Every `(v + r) * inv` is one.
fn are_inverses<F: PrimeField>(v: &Vec<F>, r: F, inv: &Vec<F>) -> (b: bool)
    ensures
        b == inverted_plus_r(F::modulus(), vals(v@), r.val(), vals(inv@)),
{
    let ghost p = F::modulus();
    if inv.len() != v.len() {
        return false;
    }
    let n: usize = v.len();
    let mut i: usize = 0;
    while i < n
        invariant
            i <= n,
            n == v@.len(),
            n == inv@.len(),
            p == F::modulus(),
            forall|j: int|
                0 <= j < i ==> 0 <= #[trigger] vals(inv@)[j] < p && ((vals(v@)[j] + r.val())
                    * vals(inv@)[j]) % p == 1,
        decreases n - i,
    {
        let x = v[i].plus(r).times(inv[i]);
        proof {
            F::lemma_modulus();
            F::lemma_val(inv@[i as int]);
            let s = v@[i as int].val() + r.val();
            let y = inv@[i as int].val();
            lemma_residue(p, s);
            lemma_cong_mul(p, s % p, y, s, y);
        }
        if !x.same(F::one()) {
            proof {
                assert(((vals(v@)[i as int] + r.val()) * vals(inv@)[i as int]) % p != 1);
            }
            return false;
        }
        i = i + 1;
    }
    true
}

/// Every `(v + r) * q` is the numerator.
fn are_quotients<F: PrimeField>(v: &Vec<F>, m: &Vec<F>, r: F, q: &Vec<F>) -> (b: bool)
    requires
        m@.len() == v@.len(),
    ensures
        b == quotients_plus_r(F::modulus(), vals(v@), vals(m@), r.val(), vals(q@)),
{
    let ghost p = F::modulus();
    if q.len() != v.len() {
        return false;
    }
    let n: usize = v.len();
    let mut i: usize = 0;
    while i < n
        invariant
            i <= n,
            n == v@.len(),
            n == m@.len(),
            n == q@.len(),
            p == F::modulus(),
            forall|j: int|
                0 <= j < i ==> 0 <= #[trigger] vals(q@)[j] < p && ((vals(v@)[j] + r.val())
                    * vals(q@)[j]) % p == vals(m@)[j] % p,
        decreases n - i,
    {
        let x = v[i].plus(r).times(q[i]);
        proof {
            F::lemma_modulus();
            F::lemma_val(q@[i as int]);
            F::lemma_val(m@[i as int]);
            lemma_reduced(p, m@[i as int].val());
            let s = v@[i as int].val() + r.val();
            let y = q@[i as int].val();
            lemma_residue(p, s);
            lemma_cong_mul(p, s % p, y, s, y);
        }
        if !x.same(m[i]) {
            proof {
                assert(((vals(v@)[i as int] + r.val()) * vals(q@)[i as int]) % p
                    != vals(m@)[i as int] % p);
            }
            return false;
        }
        i = i + 1;
    }
    true
}

/// The closing argument that hands over the vectors themselves.
pub struct OpeningArgument<E: Engine> {
    pub _p: std::marker::PhantomData<E>,
}

/// What the prover of the opening argument works with.
pub struct OpeningProverKey<E: Engine> {
    pub digest: E::Scalar,
}

/// What the verifier of the opening argument works with.
pub struct OpeningVerifierKey<E: Engine> {
    pub ck: CommitmentKey<E>,
    pub structure: Structure<E>,
    pub digest: E::Scalar,
}

/// The vectors that open a statement.
pub struct OpeningProof<E: Engine> {
    pub W: Vec<E::Scalar>,
    pub E1: Vec<E::Scalar>,
    pub E2: Vec<E::Scalar>,
    pub w: Vec<Vec<E::Scalar>>,
    pub ts: Vec<Vec<E::Scalar>>,
    pub inv_w: Vec<Vec<E::Scalar>>,
    pub inv_t: Vec<Vec<E::Scalar>>,
}

/// The vectors do not open the statement.
pub const NOT_OPENED: &'static str = "the vectors of the proof do not open the statement";

/// The label of the digest of the keys.
pub const OPENING_KEY: &'static str = "OpeningArgument_key";

impl<E: Engine> OpeningProof<E> {
    /// The vectors as plain integers.
    pub open spec fn view(&self) -> Opening {
        Opening {
            W: vals(self.W@),
            E1: vals(self.E1@),
            E2: vals(self.E2@),
            w: vecs(self.w@),
            ts: vecs(self.ts@),
            inv_w: vecs(self.inv_w@),
            inv_t: vecs(self.inv_t@),
        }
    }
}

impl<E: Engine> OpeningVerifierKey<E> {
    /// Tests the part of a proof that opens the folded instance.
    fn opens_instance(&self, U: &BridgedNeutronInstance<E>, proof: &OpeningProof<E>, Ghost(s):
        Ghost<Statement>) -> (b: bool)
        requires
            self.structure.wf(),
            key_fits(self.ck, self.structure),
            s.comm_W == U.comm_W.log(),
            s.comm_E1 == U.comm_E1.log(),
            s.comm_E2_pcs == U.comm_E2_pcs.log(),
            s.u == U.u.val(),
            s.X == vals(U.X@),
            s.T == U.T.val(),
        ensures
            b == instance_opened(self.ck, self.structure, s, proof@),
    {
        let S = &self.structure.S;
        if proof.W.len() != S.num_vars || U.X.len() != S.num_io || proof.E1.len()
            != self.structure.left || proof.E2.len() != self.structure.right {
            return false;
        }
        let zero = E::Scalar::zero();
        let z = full_vector_of(&proof.W, U.u, &U.X);
        U.comm_W.same(self.ck.commit(&proof.W, &zero)) && U.comm_E1.same(
            self.ck.commit(&proof.E1, &zero),
        ) && U.comm_E2_pcs.same(self.ck.commit(&proof.E2, &zero)) && U.T.same(
            self.structure.claim(&proof.E1, &proof.E2, &z),
        )
    }

    /// Tests the part of a proof that opens the lookups in one table.
    fn opens_table(
        &self,
        U: &BridgedNeutronInstance<E>,
        claims: &TableClaims<E>,
        proof: &OpeningProof<E>,
        j: usize,
    ) -> (b: bool)
        requires
            key_fits(self.ck, self.structure),
            counts_agree(statement(*U, *claims), proof@),
            j < claims.comm_L@.len(),
        ensures
            b == table_opened(
                self.ck,
                self.structure.S.num_cons as nat,
                statement(*U, *claims),
                proof@,
                j as int,
            ),
    {
        let n: usize = self.structure.S.num_cons;
        let ghost s = statement(*U, *claims);
        proof {
            assert(vecs(proof.w@).len() == proof.w@.len());
            assert(vecs(proof.ts@).len() == proof.ts@.len());
            assert(vecs(proof.inv_w@).len() == proof.inv_w@.len());
            assert(vecs(proof.inv_t@).len() == proof.inv_t@.len());
            assert(s.comm_L.len() == claims.comm_L@.len());
            assert(s.comm_ts.len() == claims.comm_ts@.len());
            assert(s.comm_inv_w.len() == claims.comm_inv_w@.len());
            assert(s.comm_inv_t.len() == claims.comm_inv_t@.len());
            assert(s.T_lookup.len() == claims.T_lookup@.len());
            assert(s.r_logup.len() == claims.r_logup@.len());
        }
        let w = &proof.w[j];
        let ts = &proof.ts[j];
        let inv_w = &proof.inv_w[j];
        let inv_t = &proof.inv_t[j];
        let table = &claims.T_lookup[j];
        let r = claims.r_logup[j];
        if w.len() != n || ts.len() != n || table.len() != n {
            return false;
        }
        if !are_inverses(w, r, inv_w) || !are_quotients(table, ts, r, inv_t) {
            return false;
        }
        let zero = E::Scalar::zero();
        claims.comm_L[j].same(self.ck.commit(w, &zero)) && claims.comm_ts[j].same(
            self.ck.commit(ts, &zero),
        ) && claims.comm_inv_w[j].same(self.ck.commit(inv_w, &zero)) && claims.comm_inv_t[j].same(
            self.ck.commit(inv_t, &zero),
        )
    }
}

/// Only the generators of a key and the matrices of a structure matter.
proof fn lemma_closes_same<E: Engine>(
    ck1: CommitmentKey<E>,
    structure1: Structure<E>,
    ck2: CommitmentKey<E>,
    structure2: Structure<E>,
    s: Statement,
    o: Opening,
)
    requires
        same_key(ck1, ck2),
        same_structure(structure1, structure2),
        closes(ck1, structure1, s, o),
    ensures
        closes(ck2, structure2, s, o),
{
    assert forall|j: int| 0 <= j < s.comm_L.len() implies #[trigger] table_opened(
        ck2,
        structure2.S.num_cons as nat,
        s,
        o,
        j,
    ) by {
        assert(table_opened(ck1, structure1.S.num_cons as nat, s, o, j));
    }
}

impl<E: Engine> ClosingArgument<E> for OpeningArgument<E> {
    type ProverKey = OpeningProverKey<E>;

    type VerifierKey = OpeningVerifierKey<E>;

    type Proof = OpeningProof<E>;

    open spec fn pk_for(
        pk: OpeningProverKey<E>,
        ck: CommitmentKey<E>,
        structure: Structure<E>,
    ) -> bool {
        pk.digest.val() == digest_of(OPENING_KEY@, ck, structure.S)
    }

    open spec fn vk_for(
        vk: OpeningVerifierKey<E>,
        ck: CommitmentKey<E>,
        structure: Structure<E>,
    ) -> bool {
        &&& same_key(vk.ck, ck)
        &&& same_structure(vk.structure, structure)
        &&& vk.digest.val() == digest_of(OPENING_KEY@, ck, structure.S)
    }

    open spec fn pk_digest(pk: OpeningProverKey<E>) -> int {
        pk.digest.val()
    }

    open spec fn vk_digest(vk: OpeningVerifierKey<E>) -> int {
        vk.digest.val()
    }

    open spec fn vk_valid(vk: OpeningVerifierKey<E>) -> bool {
        vk.structure.wf() && key_fits(vk.ck, vk.structure)
    }

    open spec fn rejection(
        vk: OpeningVerifierKey<E>,
        s: Statement,
        proof: OpeningProof<E>,
    ) -> Option<Rejection> {
        if closes(vk.ck, vk.structure, s, proof@) {
            None
        } else {
            Some(Rejection::Reason(NOT_OPENED@))
        }
    }

    /// The vectors are handed over; the weights have no part in it.
    open spec fn made_of(
        s: Statement,
        o: Opening,
        eq_w: Seq<Seq<int>>,
        eq_t: Seq<Seq<int>>,
        proof: OpeningProof<E>,
    ) -> bool {
        proof@ == o
    }

    proof fn lemma_digests(
        pk: OpeningProverKey<E>,
        vk: OpeningVerifierKey<E>,
        ck: CommitmentKey<E>,
        structure: Structure<E>,
    ) {
    }

    fn setup(ck: &CommitmentKey<E>, structure: &Structure<E>) -> (r: Result<
        (OpeningProverKey<E>, OpeningVerifierKey<E>),
        NovaError,
    >) {
        let n: usize = ck.ck.len();
        if n < structure.S.num_vars || n < structure.S.num_cons || n < structure.left
            + structure.right {
            return Err(NovaError::InvalidCommitmentKeyLength);
        }
        let d = digest(OPENING_KEY, ck, &structure.S);
        Ok(
            (
                OpeningProverKey { digest: d },
                OpeningVerifierKey {
                    ck: ck.duplicate(),
                    structure: structure.duplicate(),
                    digest: d,
                },
            ),
        )
    }

    fn prover_digest(pk: &OpeningProverKey<E>) -> (r: E::Scalar) {
        pk.digest
    }

    fn verifier_digest(vk: &OpeningVerifierKey<E>) -> (r: E::Scalar) {
        vk.digest
    }

    fn prove(
        ck: &CommitmentKey<E>,
        pk: &OpeningProverKey<E>,
        structure: &Structure<E>,
        U: &BridgedNeutronInstance<E>,
        W: &Vec<E::Scalar>,
        E1: &Vec<E::Scalar>,
        E2: &Vec<E::Scalar>,
        claims: TableClaims<E>,
        witnesses: TableWitnesses<E>,
    ) -> (r: Result<OpeningProof<E>, NovaError>) {
        let proof = OpeningProof {
            W: copy_scalars(W),
            E1: copy_scalars(E1),
            E2: copy_scalars(E2),
            w: copy_vecs(witnesses.w),
            ts: copy_vecs(witnesses.ts),
            inv_w: copy_vecs(witnesses.inv_w),
            inv_t: copy_vecs(witnesses.inv_t),
        };
        proof {
            let s = statement(*U, claims);
            let o = opening::<E>(W@, E1@, E2@, witnesses);
            assert(proof@ == o);
            if closes(*ck, *structure, s, o) {
                assert forall|vk: OpeningVerifierKey<E>| #[trigger]
                    <Self as ClosingArgument<E>>::vk_for(vk, *ck, *structure) implies
                    <Self as ClosingArgument<E>>::rejection(vk, s, proof) is None by {
                    lemma_closes_same(*ck, *structure, vk.ck, vk.structure, s, o);
                }
            }
        }
        Ok(proof)
    }

    fn verify(
        vk: &OpeningVerifierKey<E>,
        U: &BridgedNeutronInstance<E>,
        claims: TableClaims<E>,
        proof: &OpeningProof<E>,
    ) -> (r: Result<(), NovaError>) {
        let ghost s = statement(*U, claims);
        proof {
            assert(vecs(proof.w@).len() == proof.w@.len());
        }
        if !vk.opens_instance(U, proof, Ghost(s)) {
            return Err(rejection(NOT_OPENED));
        }
        let k: usize = claims.comm_L.len();
        if claims.T_lookup.len() != k || claims.r_logup.len() != k || claims.comm_ts.len() != k
            || claims.comm_inv_w.len() != k || claims.comm_inv_t.len() != k || proof.w.len() != k
            || proof.ts.len() != k || proof.inv_w.len() != k || proof.inv_t.len() != k {
            assert(!counts_agree(s, proof@));
            return Err(rejection(NOT_OPENED));
        }
        let mut j: usize = 0;
        while j < k
            invariant
                j <= k,
                k == claims.comm_L@.len(),
                s == statement(*U, claims),
                counts_agree(s, proof@),
                key_fits(vk.ck, vk.structure),
                forall|i: int|
                    0 <= i < j ==> #[trigger] table_opened(
                        vk.ck,
                        vk.structure.S.num_cons as nat,
                        s,
                        proof@,
                        i,
                    ),
            decreases k - j,
        {
            if !vk.opens_table(U, &claims, proof, j) {
                assert(!table_opened(
                    vk.ck,
                    vk.structure.S.num_cons as nat,
                    s,
                    proof@,
                    j as int,
                ));
                return Err(rejection(NOT_OPENED));
            }
            j = j + 1;
        }
        Ok(())
    }
}

/// What the opening argument accepts is satisfied. Every table has as many lookups, entries,
/// multiplicities and inverses as there are constraints; at every position `w + r` times `inv_w`
/// is one, and `T + r` times `inv_t` is the multiplicity; the commitments are those to these
/// vectors. The folded instance has its claim as the weighted sum over the constraints, and its
/// commitments are those to the vectors of the proof.
pub proof fn law_opening_sound<E: Engine>(
    vk: OpeningVerifierKey<E>,
    s: Statement,
    proof: OpeningProof<E>,
)
    requires
        <OpeningArgument<E> as ClosingArgument<E>>::rejection(vk, s, proof) is None,
    ensures
        s.comm_L.len() == proof.w@.len(),
        s.comm_ts.len() == proof.w@.len(),
        s.comm_inv_w.len() == proof.w@.len(),
        s.comm_inv_t.len() == proof.w@.len(),
        s.T_lookup.len() == proof.w@.len(),
        s.r_logup.len() == proof.w@.len(),
        proof.ts@.len() == proof.w@.len(),
        proof.inv_w@.len() == proof.w@.len(),
        proof.inv_t@.len() == proof.w@.len(),
        forall|j: int|
            0 <= j < proof.w@.len() ==> {
                &&& (#[trigger] proof.w@[j])@.len() == vk.structure.S.num_cons
                &&& proof.ts@[j]@.len() == vk.structure.S.num_cons
                &&& s.T_lookup[j].len() == vk.structure.S.num_cons
                &&& proof.inv_w@[j]@.len() == vk.structure.S.num_cons
                &&& proof.inv_t@[j]@.len() == vk.structure.S.num_cons
                &&& s.comm_L[j] == vk.ck.commitment(vals(proof.w@[j]@), 0)
                &&& s.comm_ts[j] == vk.ck.commitment(vals(proof.ts@[j]@), 0)
                &&& s.comm_inv_w[j] == vk.ck.commitment(vals(proof.inv_w@[j]@), 0)
                &&& s.comm_inv_t[j] == vk.ck.commitment(vals(proof.inv_t@[j]@), 0)
            },
        forall|j: int, i: int|
            0 <= j < proof.w@.len() && 0 <= i < vk.structure.S.num_cons ==> {
                &&& (((#[trigger] proof.w@[j]@[i]).val() + s.r_logup[j])
                    * proof.inv_w@[j]@[i].val()) % E::Scalar::modulus() == 1
                &&& ((s.T_lookup[j][i] + s.r_logup[j]) * proof.inv_t@[j]@[i].val())
                    % E::Scalar::modulus() == proof.ts@[j]@[i].val()
            },
        proof.W@.len() == vk.structure.S.num_vars,
        s.X.len() == vk.structure.S.num_io,
        proof.E1@.len() == vk.structure.left,
        proof.E2@.len() == vk.structure.right,
        s.comm_W == vk.ck.commitment(vals(proof.W@), 0),
        s.comm_E1 == vk.ck.commitment(vals(proof.E1@), 0),
        s.comm_E2_pcs == vk.ck.commitment(vals(proof.E2@), 0),
        s.T == grid_claim(
            vk.structure.S,
            vals(proof.E1@),
            vals(proof.E2@),
            vals(proof.W@) + seq![s.u] + s.X,
        ),
{
    let p = E::Scalar::modulus();
    let o = proof@;
    let n = vk.structure.S.num_cons as nat;
    E::Scalar::lemma_modulus();
    assert(closes(vk.ck, vk.structure, s, o));
    assert(o.w.len() == proof.w@.len() && o.ts.len() == proof.ts@.len() && o.inv_w.len()
        == proof.inv_w@.len() && o.inv_t.len() == proof.inv_t@.len());
    assert(o.W.len() == proof.W@.len() && o.E1.len() == proof.E1@.len() && o.E2.len()
        == proof.E2@.len());
    assert(full_vector(o.W, s.u, s.X) =~= vals(proof.W@) + seq![s.u] + s.X);
    assert forall|j: int| 0 <= j < proof.w@.len() implies {
        &&& (#[trigger] proof.w@[j])@.len() == n
        &&& proof.ts@[j]@.len() == n
        &&& s.T_lookup[j].len() == n
        &&& proof.inv_w@[j]@.len() == n
        &&& proof.inv_t@[j]@.len() == n
        &&& s.comm_L[j] == vk.ck.commitment(vals(proof.w@[j]@), 0)
        &&& s.comm_ts[j] == vk.ck.commitment(vals(proof.ts@[j]@), 0)
        &&& s.comm_inv_w[j] == vk.ck.commitment(vals(proof.inv_w@[j]@), 0)
        &&& s.comm_inv_t[j] == vk.ck.commitment(vals(proof.inv_t@[j]@), 0)
    } by {
        assert(table_opened(vk.ck, n, s, o, j));
        assert(o.w[j].len() == proof.w@[j]@.len() && o.ts[j].len() == proof.ts@[j]@.len());
        assert(o.inv_w[j].len() == proof.inv_w@[j]@.len());
        assert(o.inv_t[j].len() == proof.inv_t@[j]@.len());
    }
    assert forall|j: int, i: int| 0 <= j < proof.w@.len() && 0 <= i < n implies {
        &&& (((#[trigger] proof.w@[j]@[i]).val() + s.r_logup[j]) * proof.inv_w@[j]@[i].val()) % p
            == 1
        &&& ((s.T_lookup[j][i] + s.r_logup[j]) * proof.inv_t@[j]@[i].val()) % p
            == proof.ts@[j]@[i].val()
    } by {
        assert(table_opened(vk.ck, n, s, o, j));
        assert(proof.w@[j]@.len() == n && proof.ts@[j]@.len() == n && proof.inv_w@[j]@.len() == n
            && proof.inv_t@[j]@.len() == n);
        assert(o.inv_w[j][i] == proof.inv_w@[j]@[i].val());
        assert(o.inv_t[j][i] == proof.inv_t@[j]@[i].val());
        assert(o.w[j][i] == proof.w@[j]@[i].val());
        assert(o.ts[j][i] == proof.ts@[j]@[i].val());
        E::Scalar::lemma_val(proof.ts@[j]@[i]);
        lemma_reduced(p, proof.ts@[j]@[i].val());
    }
}

/// A key is long enough exactly if it has a generator for every private value, for every constraint
/// and for every weight.
pub proof fn law_key_fits_exactly<E: Engine>(ck: CommitmentKey<E>, structure: Structure<E>)
    ensures
        key_fits(ck, structure) <==> ck.ck@.len() >= structure.S.num_vars && ck.ck@.len()
            >= structure.S.num_cons && ck.ck@.len() >= structure.left + structure.right,
{
}

/// The keys of the opening argument belong to the commitment key and the structure that they were
/// made for: the verifier's key holds their generators, dimensions and matrices, and both digests
/// are the digest of these.
pub proof fn law_opening_keys<E: Engine>(
    pk: OpeningProverKey<E>,
    vk: OpeningVerifierKey<E>,
    ck: CommitmentKey<E>,
    structure: Structure<E>,
)
    requires
        <OpeningArgument<E> as ClosingArgument<E>>::pk_for(pk, ck, structure),
        <OpeningArgument<E> as ClosingArgument<E>>::vk_for(vk, ck, structure),
    ensures
        pk.digest.val() == digest_of("OpeningArgument_key"@, ck, structure.S),
        vk.digest.val() == digest_of("OpeningArgument_key"@, ck, structure.S),
        <OpeningArgument<E> as ClosingArgument<E>>::pk_digest(pk) == pk.digest.val(),
        <OpeningArgument<E> as ClosingArgument<E>>::vk_digest(vk) == vk.digest.val(),
        vk.ck.ck@ == ck.ck@,
        vk.ck.h.log() == ck.h.log(),
        vk.structure.left == structure.left,
        vk.structure.right == structure.right,
        vk.structure.S.num_cons == structure.S.num_cons,
        vk.structure.S.num_vars == structure.S.num_vars,
        vk.structure.S.num_io == structure.S.num_io,
        vk.structure.S.A@ == structure.S.A@,
        vk.structure.S.B@ == structure.S.B@,
        vk.structure.S.C@ == structure.S.C@,
{
}

/// The opening argument hands over every vector that it was given.
pub proof fn law_opening_hands_over<E: Engine>(
    s: Statement,
    o: Opening,
    eq_w: Seq<Seq<int>>,
    eq_t: Seq<Seq<int>>,
    proof: OpeningProof<E>,
)
    requires
        <OpeningArgument<E> as ClosingArgument<E>>::made_of(s, o, eq_w, eq_t, proof),
    ensures
        vals(proof.W@) == o.W,
        vals(proof.E1@) == o.E1,
        vals(proof.E2@) == o.E2,
        proof.w@.len() == o.w.len(),
        proof.ts@.len() == o.ts.len(),
        proof.inv_w@.len() == o.inv_w.len(),
        proof.inv_t@.len() == o.inv_t.len(),
        forall|j: int| 0 <= j < o.w.len() ==> vals((#[trigger] proof.w@[j])@) == o.w[j],
        forall|j: int| 0 <= j < o.ts.len() ==> vals((#[trigger] proof.ts@[j])@) == o.ts[j],
        forall|j: int|
            0 <= j < o.inv_w.len() ==> vals((#[trigger] proof.inv_w@[j])@) == o.inv_w[j],
        forall|j: int|
            0 <= j < o.inv_t.len() ==> vals((#[trigger] proof.inv_t@[j])@) == o.inv_t[j],
{
    assert(vecs(proof.w@) == o.w && vecs(proof.ts@) == o.ts);
    assert(vecs(proof.inv_w@) == o.inv_w && vecs(proof.inv_t@) == o.inv_t);
}

} // verus!
