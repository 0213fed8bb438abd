//! The prover of a fold.

use crate::bundle::{
    bundle_committed, bundle_fits, bundles_fit, committed, fits_bundles, fold_tables, fresh_lookups,
    instance_of, inverses_committed, law_fold_keeps_commitments, prove_tables, public_of,
    running_between, running_of, said, table_column, table_folded, table_gamma, table_invertible,
    table_said, FoldedTables, PerTableBundle, TableMessages,
};
use crate::circuit::lookup::{
    claim_carried, eq_at, AllocatedLookupNIFS, AllocatedLookupNIFSMultiTable,
    AllocatedLookupPayloadPublicMultiTable,
};
use crate::circuit::nifs::{
    fold_checks, fold_eq, fold_r_b, fold_rho, folds_to, lookup_input, multi_table_input,
    payloads_at, r_b_log, rho_log, table_at, tau_log, FoldInput,
};
use crate::circuit::r1cs::r1cs_val;
use crate::circuit::relation::{law_line_mixes, line};
use crate::columns::{
    columns_fit, combined_point, law_combined_point_sum, MultiColumnLookupTable,
};
use crate::commitment::{copy_points, copy_scalars, logs, CommitmentKey};
use crate::compressed_snark::closing::{key_fits, vecs};
use crate::degree::poly_of;
use crate::engine::{Engine, Group, NUM_CHALLENGE_BITS};
use crate::errors::NovaError;
use crate::field::{
    lemma_cong_add, lemma_cong_diff, lemma_cong_mul, lemma_reduced, lemma_residue, PrimeField,
};
use crate::frontend::{AllocatedNum, Valuation};
use crate::gadgets::nums_at;
use crate::linear::{law_commitment_between, lemma_mat_vec_between, scalars_between};
use crate::nifs::{
    before_renewal, columns_log, count, eq_of, fold_challenges, fold_input, fold_r,
    folded_natively, law_multi_column_matches_native, law_multi_table_matches_native, opt_len,
    poly_vals, reads_fold, reads_table, reads_tables, running_claims, running_or_zeros, start_fold,
    table_vals,
};
use crate::point::AllocatedNonnativePoint;
use crate::poly::{claim_met, vals, UniPoly};
use crate::powers::{law_power, power, power_of, powers, powers_of};
use crate::relation::{
    repeat_identity, FoldedInstance, FoldedVal, LookupPayloadPublicMultiTable,
    LookupRunningWitness, R1CSInstance, NIFS,
};
use crate::side::{
    between, cell, five_evals, law_between_mixes, lemma_between_ends, lemma_carried_claim,
    lemma_rows_poly, lemma_rows_vanish, line_at, round_from_evals, round_poly, rows, side_between,
    side_claim, side_shape, Side,
};
use crate::structure::{
    full_vector, full_vector_of, grid, grid_claim, mat_row, multiply, split_scalars, FoldedWitness,
    R1CSShape, R1CSWitness, Structure,
};
use crate::sums::{lemma_sum_same, sum};
use vstd::arithmetic::power::{
    lemma_pow_adds, lemma_pow_mod_noop, lemma_pow_multiplies, pow,
};
use vstd::prelude::*;

verus! {

/// The weights and the vector that the constraints are summed up with.
pub struct GridPoint {
    pub e_left: Seq<int>,
    pub e_right: Seq<int>,
    pub z: Seq<int>,
}

/// The point on the line through two others.
pub open spec fn grid_between(p: int, a: GridPoint, b: GridPoint, x: int) -> GridPoint {
    GridPoint {
        e_left: between(p, a.e_left, b.e_left, x),
        e_right: between(p, a.e_right, b.e_right, x),
        z: between(p, a.z, b.z, x),
    }
}

/// The weighted sum of what the constraints lack, between two points.
pub open spec fn claim_between<E: Engine>(
    S: R1CSShape<E>,
    a: GridPoint,
    b: GridPoint,
    x: int,
) -> int {
    let c = grid_between(E::Scalar::modulus(), a, b, x);
    side_claim(grid(S, c.e_left, c.e_right, c.z), 0)
}

/// The point has the dimensions of the structure.
pub open spec fn grid_fits<E: Engine>(structure: Structure<E>, a: GridPoint) -> bool {
    &&& a.e_left.len() == structure.left
    &&& a.e_right.len() == structure.right
    &&& a.z.len() == structure.S.columns()
}

/// The grids between two points are those of the points between.
pub proof fn lemma_grid_between<E: Engine>(
    structure: Structure<E>,
    a: GridPoint,
    b: GridPoint,
    x: int,
)
    requires
        structure.wf(),
        grid_fits(structure, a),
        grid_fits(structure, b),
    ensures
        side_between(
            E::Scalar::modulus(),
            grid(structure.S, a.e_left, a.e_right, a.z),
            grid(structure.S, b.e_left, b.e_right, b.z),
            x,
        ) == ({
            let c = grid_between(E::Scalar::modulus(), a, b, x);
            grid(structure.S, c.e_left, c.e_right, c.z)
        }),
{
    let S = structure.S;
    lemma_mat_vec_between(S.A@, S.num_cons as nat, a.z, b.z, x);
    lemma_mat_vec_between(S.B@, S.num_cons as nat, a.z, b.z, x);
    lemma_mat_vec_between(S.C@, S.num_cons as nat, a.z, b.z, x);
}

/// One of the two points of a round.
pub struct GridVectors<'a, F: PrimeField> {
    pub e_left: &'a Vec<F>,
    pub e_right: &'a Vec<F>,
    pub z: &'a Vec<F>,
}

impl<'a, F: PrimeField> GridVectors<'a, F> {
    /// The point as plain integers.
    pub open spec fn view(&self) -> GridPoint {
        GridPoint {
            e_left: vals(self.e_left@),
            e_right: vals(self.e_right@),
            z: vals(self.z@),
        }
    }
}

/// The round polynomial of the constraints for the claim `t`.
pub fn grid_round<E: Engine>(
    structure: &Structure<E>,
    a: &GridVectors<E::Scalar>,
    b: &GridVectors<E::Scalar>,
    rho: E::Scalar,
    t: E::Scalar,
) -> (poly: UniPoly<E::Scalar>)
    requires
        structure.wf(),
        grid_fits(*structure, a@),
        grid_fits(*structure, b@),
    ensures
        round_poly(
            E::Scalar::modulus(),
            poly@,
            |x: int| claim_between(structure.S, a@, b@, x),
            rho.val(),
            t.val(),
        ),
        claim_met(E::Scalar::modulus(), poly@, t.val()),
{
    let S = &structure.S;
    let n: usize = S.num_cons;
    let ghost claim = |x: int| claim_between(structure.S, a@, b@, x);
    proof {
        assert(a@.z.len() == a.z@.len());
        assert(b@.z.len() == b.z@.len());
        assert(a@.e_left.len() == a.e_left@.len());
        assert(b@.e_left.len() == b.e_left@.len());
        assert(a@.e_right.len() == a.e_right@.len());
        assert(b@.e_right.len() == b.e_right@.len());
    }
    let a1 = multiply(&S.A, n, a.z);
    let b1 = multiply(&S.B, n, a.z);
    let c1 = multiply(&S.C, n, a.z);
    let a2 = multiply(&S.A, n, b.z);
    let b2 = multiply(&S.B, n, b.z);
    let c2 = multiply(&S.C, n, b.z);
    let side = Side {
        eq_left_1: a.e_left,
        eq_left_2: b.e_left,
        eq_right_1: a.e_right,
        eq_right_2: b.e_right,
        inv_1: &a1,
        inv_2: &a2,
        base_1: &b1,
        base_2: &b2,
        num: Some((&c1, &c2)),
    };
    let zero = E::Scalar::zero();
    proof {
        assert(side.first() == grid(*S, a@.e_left, a@.e_right, a@.z));
        assert(side.second() == grid(*S, b@.e_left, b@.e_right, b@.z));
        assert(side_shape(side.first()));
        assert(side_shape(side.second()));
    }
    let v = side.evals(zero);
    proof {
        assert forall|x: int| #[trigger] claim(x) == side_claim(side.at(x), 0) by {
            lemma_grid_between(*structure, a@, b@, x);
        }
        assert(five_evals(v, |x: int| side_claim(side.at(x), 0)));
        assert(five_evals(v, claim));
    }
    round_from_evals(rho, t, v, Ghost(claim))
}

/// The claim between two points is a polynomial of degree at most four.
pub proof fn law_grid_degree<E: Engine>(structure: Structure<E>, a: GridPoint, b: GridPoint)
    requires
        structure.wf(),
        grid_fits(structure, a),
        grid_fits(structure, b),
    ensures
        poly_of(E::Scalar::modulus(), |x: int| claim_between(structure.S, a, b, x), 5),
{
    let p = E::Scalar::modulus();
    E::Scalar::lemma_modulus();
    let s = grid(structure.S, a.e_left, a.e_right, a.z);
    let t = grid(structure.S, b.e_left, b.e_right, b.z);
    let h = |x: int| claim_between(structure.S, a, b, x);
    assert forall|x: int| #[trigger] h(x) == rows(
        side_between(p, s, t, x),
        0,
        s.eq_right.len(),
    ) by {
        lemma_grid_between(structure, a, b, x);
    }
    lemma_rows_poly(p, s, t, 0, s.eq_right.len(), h);
}

/// Where every constraint holds, the weighted sum vanishes.
pub proof fn law_held_claim_vanishes<E: Engine>(structure: Structure<E>, a: GridPoint)
    requires
        structure.wf(),
        grid_fits(structure, a),
        structure.S.holds(a.z),
    ensures
        side_claim(grid(structure.S, a.e_left, a.e_right, a.z), 0) % E::Scalar::modulus() == 0,
{
    let p = E::Scalar::modulus();
    E::Scalar::lemma_modulus();
    let S = structure.S;
    let s = grid(S, a.e_left, a.e_right, a.z);
    assert forall|k: int| 0 <= k < s.inv.len() implies #[trigger] cell(s, 0, k) % p
        == 0 by {
        let x = mat_row(S.A@, a.z, k);
        let y = mat_row(S.B@, a.z, k);
        let w = mat_row(S.C@, a.z, k);
        lemma_residue(p, x);
        lemma_residue(p, y);
        lemma_residue(p, w);
        lemma_cong_mul(p, x % p, y % p, x, y);
        assert((x * y) % p == w % p);
        lemma_cong_diff(p, (x % p) * (y % p), w % p);
        assert((x % p) * (y % p + 0) == (x % p) * (y % p));
    }
    lemma_rows_vanish(p, s, 0, s.eq_right.len());
}

/// The claim that is carried on from a round between a point with the claim `t1` and one at which
/// every constraint holds is the claim of the point between.
pub proof fn law_fold_carries_claim<E: Engine>(
    structure: Structure<E>,
    a: GridPoint,
    b: GridPoint,
    poly: Seq<int>,
    rho: int,
    t1: int,
    r_b: int,
    t_out: int,
)
    requires
        structure.wf(),
        grid_fits(structure, a),
        grid_fits(structure, b),
        grid_between(E::Scalar::modulus(), a, b, 0) == a,
        grid_between(E::Scalar::modulus(), a, b, 1) == b,
        t1 == grid_claim(structure.S, a.e_left, a.e_right, a.z),
        structure.S.holds(b.z),
        round_poly(
            E::Scalar::modulus(),
            poly,
            |x: int| claim_between(structure.S, a, b, x),
            rho,
            (t1 * (1 - rho)) % E::Scalar::modulus(),
        ),
        eq_at(E::Scalar::modulus(), rho, r_b) != 0,
        claim_carried(
            E::Scalar::modulus(),
            poly,
            eq_at(E::Scalar::modulus(), rho, r_b),
            r_b,
            t_out,
        ),
        0 <= t_out < E::Scalar::modulus(),
    ensures
        ({
            let c = grid_between(E::Scalar::modulus(), a, b, r_b);
            t_out == grid_claim(structure.S, c.e_left, c.e_right, c.z)
        }),
{
    let p = E::Scalar::modulus();
    E::Scalar::lemma_modulus();
    let claim = |x: int| claim_between(structure.S, a, b, x);
    let t = (t1 * (1 - rho)) % p;
    law_grid_degree(structure, a, b);
    law_held_claim_vanishes(structure, b);
    let c0 = claim(0);
    let c1 = claim(1);
    let e0 = eq_at(p, rho, 0);
    let e1 = eq_at(p, rho, 1);
    assert(t1 == c0 % p);
    lemma_residue(p, c0);
    assert((1 - rho) * (1 - 0) + rho * 0 == 1 - rho) by (nonlinear_arith);
    lemma_residue(p, 1 - rho);
    lemma_cong_mul(p, e0, c0, 1 - rho, t1);
    lemma_cong_mul(p, e1, c1, e1, 0);
    assert(e1 * 0 == 0) by (nonlinear_arith);
    lemma_cong_add(p, e0 * c0, e1 * c1, (1 - rho) * t1, 0);
    assert((1 - rho) * t1 == t1 * (1 - rho)) by (nonlinear_arith);
    lemma_residue(p, t1 * (1 - rho));
    lemma_carried_claim(p, poly, claim, rho, t, r_b, t_out);
    lemma_reduced(p, t_out);
}

/// The challenge that the new weights are the powers of.
pub open spec fn fold_tau<E: Engine>(x: FoldInput) -> int {
    E::challenge(tau_log(x), NUM_CHALLENGE_BITS)
}

/// The new weights: the powers of `tau` for the columns of the grid, and the powers of
/// `tau^left` for its rows.
pub open spec fn fresh_weights<E: Engine>(structure: Structure<E>, tau: int) -> Seq<int> {
    let p = E::Scalar::modulus();
    powers(p, tau, structure.left as nat) + powers(
        p,
        power(p, tau, structure.left as nat),
        structure.right as nat,
    )
}

/// What the oracle knows before the prover computes anything.
pub open spec fn opening_input<E: Engine>(
    pp: int,
    U1: FoldedInstance<E>,
    U2: R1CSInstance<E>,
    tables: Seq<LookupPayloadPublicMultiTable<E>>,
) -> FoldInput {
    FoldInput {
        pp,
        U1: U1@,
        U2: r1cs_val(Some(&U2)),
        comm_E: Seq::empty(),
        poly: Seq::empty(),
        tables: table_vals(tables),
        polys: Seq::empty(),
        inv_w: Seq::empty(),
        inv_t: Seq::empty(),
        running: Seq::empty(),
    }
}

/// What the oracle knows once the prover has committed to the new weights.
pub open spec fn weighted_input<E: Engine>(
    ck: CommitmentKey<E>,
    structure: Structure<E>,
    pp: int,
    U1: FoldedInstance<E>,
    U2: R1CSInstance<E>,
    tables: Seq<LookupPayloadPublicMultiTable<E>>,
    r_E: int,
) -> FoldInput {
    let y = opening_input(pp, U1, U2, tables);
    FoldInput {
        comm_E: E::GE::coordinates(
            ck.commitment(fresh_weights(structure, fold_tau::<E>(y)), r_E),
        ),
        ..y
    }
}

/// What the prover sends, with what it keeps for itself.
pub struct FoldMessage<E: Engine> {
    pub nifs: NIFS<E>,
    /// The new weights.
    pub weights: Vec<E::Scalar>,
    pub tables: TableMessages<E>,
}

/// The two points of the round on the constraints.
pub open spec fn fold_points<E: Engine>(
    structure: Structure<E>,
    U1: FoldedInstance<E>,
    W1: FoldedWitness<E>,
    U2: R1CSInstance<E>,
    W2: R1CSWitness<E>,
    weights: Seq<int>,
) -> (GridPoint, GridPoint) {
    let l = structure.left as int;
    (
        GridPoint {
            e_left: vals(W1.E@).take(l),
            e_right: vals(W1.E@).skip(l),
            z: full_vector(vals(W1.W@), U1.u.val(), vals(U1.X@)),
        },
        GridPoint {
            e_left: weights.take(l),
            e_right: weights.skip(l),
            z: full_vector(vals(W2.W@), 1, vals(U2.X@)),
        },
    )
}

/// The instances and witnesses have the dimensions of the structure.
pub open spec fn fold_shaped<E: Engine>(
    ck: CommitmentKey<E>,
    structure: Structure<E>,
    U1: FoldedInstance<E>,
    W1: FoldedWitness<E>,
    U2: R1CSInstance<E>,
    W2: R1CSWitness<E>,
) -> bool {
    &&& structure.wf()
    &&& key_fits(ck, structure)
    &&& structure.S.num_io == 1
    &&& U1.X@.len() == 1
    &&& U2.X@.len() == 1
    &&& W1.W@.len() == structure.S.num_vars
    &&& W2.W@.len() == structure.S.num_vars
    &&& W1.E@.len() == structure.left + structure.right
}

/// The inverses of the lookups in all tables exist.
pub open spec fn lookups_invertible<E: Engine>(
    x: FoldInput,
    bundles: Seq<PerTableBundle<E>>,
    tables: Seq<MultiColumnLookupTable<E>>,
) -> bool {
    forall|j: int|
        0 <= j < bundles.len() ==> table_invertible(
            #[trigger] bundles[j],
            tables[j],
            table_gamma::<E>(x, j),
            fold_r::<E>(x, j as nat),
        )
}

/// What the prover keeps of table `j` goes with the polynomial that it sends.
pub open spec fn table_kept<E: Engine>(
    m: TableMessages<E>,
    nifs: NIFS<E>,
    x: FoldInput,
    bundles: Seq<PerTableBundle<E>>,
    tables: Seq<MultiColumnLookupTable<E>>,
    running: Seq<int>,
    j: int,
) -> bool {
    &&& m.gammas@[j].val() == table_gamma::<E>(x, j)
    &&& said(
        m.instances@[j],
        table_gamma::<E>(x, j),
        x.polys[j],
        bundles[j],
        tables[j],
        fold_r::<E>(x, j as nat),
        fold_rho::<E>(x),
        running[j],
    )
}

/// Two vectors one behind the other.
fn joined<F: PrimeField>(a: &Vec<F>, b: &Vec<F>) -> (r: Vec<F>)
    ensures
        r@ == a@ + b@,
        vals(r@) == vals(a@) + vals(b@),
{
    let mut r = copy_scalars(a);
    let n: usize = b.len();
    let mut i: usize = 0;
    assert(r@ =~= a@ + b@.take(0));
    while i < n
        invariant
            i <= n,
            n == b@.len(),
            r@ == a@ + b@.take(i as int),
        decreases n - i,
    {
        r.push(b[i]);
        assert(r@ =~= a@ + b@.take(i as int + 1));
        i = i + 1;
    }
    assert(b@.take(n as int) =~= b@);
    assert(vals(r@) =~= vals(a@) + vals(b@));
    r
}

/// What the message has to be.
pub open spec fn message_for<E: Engine>(
    m: FoldMessage<E>,
    ck: CommitmentKey<E>,
    structure: Structure<E>,
    pp: int,
    U1: FoldedInstance<E>,
    W1: FoldedWitness<E>,
    U2: R1CSInstance<E>,
    W2: R1CSWitness<E>,
    bundles: Seq<PerTableBundle<E>>,
    tables: Seq<MultiColumnLookupTable<E>>,
    public: Seq<LookupPayloadPublicMultiTable<E>>,
    r_E: int,
) -> bool {
    let p = E::Scalar::modulus();
    let x = fold_input(pp, U1, U2, m.nifs, public);
    let w = vals(m.weights@);
    let k = bundles.len();
    &&& w == fresh_weights(structure, fold_tau::<E>(x))
    &&& m.nifs.comm_E.log() == ck.commitment(w, r_E)
    &&& round_poly(
        p,
        m.nifs.poly@,
        |y: int|
            claim_between(
                structure.S,
                fold_points(structure, U1, W1, U2, W2, w).0,
                fold_points(structure, U1, W1, U2, W2, w).1,
                y,
            ),
        fold_rho::<E>(x),
        (U1.T.val() * (1 - fold_rho::<E>(x))) % p,
    )
    &&& fold_checks::<E>(x)
    &&& x.poly.len() == 6
    &&& x.polys.len() == k
    &&& m.nifs.poly_lookup is Some
    &&& m.nifs.comm_inv_w is Some
    &&& m.nifs.comm_inv_t is Some
    &&& opt_len(m.nifs.comm_inv_w) == k
    &&& opt_len(m.nifs.comm_inv_t) == k
    &&& m.tables.instances@.len() == k
    &&& m.tables.gammas@.len() == k
    &&& forall|j: int|
        0 <= j < k ==> #[trigger] table_kept(
            m.tables,
            m.nifs,
            x,
            bundles,
            tables,
            running_or_zeros(U1@.T_lookup, k),
            j,
        )
    &&& forall|j: int| 0 <= j < k ==> (#[trigger] x.polys[j]).len() == 6
}

/// The message carries, for each of `k` tables, the commitments to the inverses that go with it.
pub open spec fn inverses_sent<E: Engine>(
    m: FoldMessage<E>,
    ck: CommitmentKey<E>,
    k: nat,
) -> bool {
    forall|j: int|
        0 <= j < k ==> inverses_committed(
            ck,
            #[trigger] m.tables.instances@[j],
            m.nifs.comm_inv_w->Some_0@[j].log(),
            m.nifs.comm_inv_t->Some_0@[j].log(),
        )
}

/// The message of the prover; an error where an inverse is missing.
pub fn fold_message<E: Engine>(
    ck: &CommitmentKey<E>,
    structure: &Structure<E>,
    pp_digest: E::Scalar,
    U1: &FoldedInstance<E>,
    W1: &FoldedWitness<E>,
    U2: &R1CSInstance<E>,
    W2: &R1CSWitness<E>,
    bundles: &Vec<PerTableBundle<E>>,
    tables: &Vec<MultiColumnLookupTable<E>>,
    public: &Vec<LookupPayloadPublicMultiTable<E>>,
    running: &Vec<E::Scalar>,
    r_E: E::Scalar,
) -> (r: Result<FoldMessage<E>, NovaError>)
    requires
        fold_shaped(*ck, *structure, *U1, *W1, *U2, *W2),
        bundles_fit(bundles@, tables@, ck.ck@.len()),
        public_of(public@, bundles@),
        bundles@.len() > 0 ==> vals(running@) == running_or_zeros(U1@.T_lookup, bundles@.len()),
        running@.len() == bundles@.len(),
    ensures
        ({
            let x = weighted_input(
                *ck,
                *structure,
                pp_digest.val(),
                *U1,
                *U2,
                public@,
                r_E.val(),
            );
            &&& r is Ok <==> lookups_invertible::<E>(x, bundles@, tables@)
            &&& r is Err ==> r->Err_0 == NovaError::InvalidInversion
            &&& r is Ok ==> message_for(
                r->Ok_0,
                *ck,
                *structure,
                pp_digest.val(),
                *U1,
                *W1,
                *U2,
                *W2,
                bundles@,
                tables@,
                public@,
                r_E.val(),
            )
            &&& r is Ok ==> inverses_sent(r->Ok_0, *ck, bundles@.len())
        }),
{
    let ghost p = E::Scalar::modulus();
    let ghost y = opening_input(pp_digest.val(), *U1, *U2, public@);
    let mut ro = start_fold(pp_digest, U2, public, Ghost(y));
    let tau = ro.squeeze(NUM_CHALLENGE_BITS);
    let e_left = powers_of(tau, structure.left);
    let e_right = powers_of(power_of(tau, structure.left), structure.right);
    let weights = joined(&e_left, &e_right);
    let ghost w = vals(weights@);
    assert(w =~= fresh_weights(*structure, fold_tau::<E>(y)));
    let comm_E = ck.commit(&weights, &r_E);
    let ghost x0 = weighted_input(
        *ck,
        *structure,
        pp_digest.val(),
        *U1,
        *U2,
        public@,
        r_E.val(),
    );
    proof {
        assert(tau_log(x0) == tau_log(y));
        assert forall|j: int| 0 <= j < bundles@.len() implies (
        #[trigger] x0.tables[j]).comm_values.len() == bundles@[j].payload.comm_values@.len() by {
            assert(public@[j].comm_values@ == bundles@[j].payload.comm_values@);
        }
    }
    let c = fold_challenges(&mut ro, &comm_E, public, Ghost(x0));
    let messages = match prove_tables(ck, bundles, tables, &c, running, Ghost(x0)) {
        Ok(m) => m,
        Err(e) => {
            return Err(e);
        },
    };
    let one = E::Scalar::one();
    let t = U1.T.times(one.minus(c.rho));
    let z1 = full_vector_of(&W1.W, U1.u, &U1.X);
    let z2 = full_vector_of(&W2.W, one, &U2.X);
    let (e1_left, e1_right) = split_scalars(&W1.E, structure.left);
    let a = GridVectors { e_left: &e1_left, e_right: &e1_right, z: &z1 };
    let b = GridVectors { e_left: &e_left, e_right: &e_right, z: &z2 };
    let ghost points = fold_points(*structure, *U1, *W1, *U2, *W2, w);
    proof {
        E::Scalar::lemma_modulus();
        assert(vals(z1@).len() == z1@.len());
        assert(vals(z2@).len() == z2@.len());
        assert(w.take(structure.left as int) =~= vals(e_left@));
        assert(w.skip(structure.left as int) =~= vals(e_right@));
        assert(a@ == points.0);
        assert(b@ == points.1);
        lemma_residue(p, 1 - c.rho.val());
        lemma_cong_mul(p, U1.T.val(), (1 - c.rho.val()) % p, U1.T.val(), 1 - c.rho.val());
    }
    let poly = grid_round(structure, &a, &b, c.rho, t);
    let TableMessages { instances, gammas, polys, inv_w, inv_t } = messages;
    let ghost polys0 = polys@;
    let nifs = NIFS {
        comm_E,
        poly,
        poly_lookup: Some(polys),
        comm_inv_w: Some(inv_w),
        comm_inv_t: Some(inv_t),
        comm_L_fold_per_table: None,
        comm_ts_fold_per_table: None,
    };
    let m = FoldMessage {
        nifs,
        weights,
        tables: TableMessages {
            instances,
            gammas,
            polys: Vec::new(),
            inv_w: Vec::new(),
            inv_t: Vec::new(),
        },
    };
    proof {
        let x = fold_input(pp_digest.val(), *U1, *U2, m.nifs, public@);
        assert(tau_log(x) == tau_log(x0));
        assert(rho_log(x) == rho_log(x0));
        assert(columns_log(x) == columns_log(x0));
        assert(x.tables == x0.tables);
        assert(x.polys =~= Seq::new(polys0.len(), |j: int| polys0[j]@));
        assert(running_or_zeros(U1@.T_lookup, bundles@.len()) == vals(running@) || bundles@.len()
            == 0);
        assert forall|j: int| 0 <= j < bundles@.len() implies claim_met(
            p,
            #[trigger] x.polys[j],
            x.running[j],
        ) && x.polys[j].len() == 6 by {
            assert(table_said(messages, x0, bundles@, tables@, vals(running@), j));
        }
        assert forall|j: int| 0 <= j < bundles@.len() implies #[trigger] table_kept(
            m.tables,
            m.nifs,
            x,
            bundles@,
            tables@,
            running_or_zeros(U1@.T_lookup, bundles@.len()),
            j,
        ) by {
            assert(table_said(messages, x0, bundles@, tables@, vals(running@), j));
        }
    }
    Ok(m)
}

/// What a fold yields on the prover's side.
pub struct FoldOutput<E: Engine> {
    pub nifs: NIFS<E>,
    pub U: FoldedInstance<E>,
    pub W: FoldedWitness<E>,
    pub lws: Vec<LookupRunningWitness<E>>,
}

/// The commitments of a running instance to the lookups in its tables.
pub open spec fn table_points<E: Engine>(v: Option<Vec<E::GE>>) -> Seq<E::GE> {
    match v {
        Some(x) => x@,
        None => Seq::empty(),
    }
}

/// What a fold yields: the folded instance of the verifier, a witness that satisfies it if the
/// folded instances were satisfied, and running witnesses that go with its commitments if those
/// of the tables were right.
pub open spec fn fold_done<E: Engine>(
    out: FoldOutput<E>,
    ck: CommitmentKey<E>,
    structure: Structure<E>,
    pp: int,
    U1: FoldedInstance<E>,
    W1: FoldedWitness<E>,
    U2: R1CSInstance<E>,
    W2: R1CSWitness<E>,
    bundles: Seq<PerTableBundle<E>>,
    public: Seq<LookupPayloadPublicMultiTable<E>>,
) -> bool {
    &&& folded_natively(pp, U1, U2, out.nifs, public, out.U)
    &&& fold_shaped(ck, structure, out.U, out.W, U2, W2)
    &&& out.lws@.len() == bundles.len()
    &&& out.nifs.poly@.len() == 6
    &&& poly_vals(out.nifs.poly_lookup).len() == bundles.len()
    &&& opt_len(out.nifs.comm_inv_w) == bundles.len()
    &&& opt_len(out.nifs.comm_inv_t) == bundles.len()
    &&& forall|j: int|
        0 <= j < bundles.len() ==> (#[trigger] poly_vals(out.nifs.poly_lookup)[j]).len() == 6
    &&& structure.satisfied_by(ck, U1, W1) && structure.S.satisfied_by(ck, U2, W2)
        ==> structure.satisfied_by(ck, out.U, out.W)
    &&& bundles.len() > 0 ==> {
        &&& out.U.comm_L is Some
        &&& out.U.comm_ts is Some
        &&& opt_len(out.U.T_lookup) == bundles.len()
        &&& opt_len(out.nifs.comm_L_fold_per_table) == bundles.len()
        &&& opt_len(out.nifs.comm_ts_fold_per_table) == bundles.len()
        &&& committed(
            ck,
            running_of(bundles),
            table_points::<E>(U1.comm_L),
            table_points::<E>(U1.comm_ts),
        ) && (forall|j: int| 0 <= j < bundles.len() ==> bundle_committed(ck, #[trigger] bundles[j]))
            ==> committed(
            ck,
            out.lws@,
            table_points::<E>(out.U.comm_L),
            table_points::<E>(out.U.comm_ts),
        )
    }
}

/// Folded vectors meet the relation.
proof fn lemma_fold_satisfied<E: Engine>(
    ck: CommitmentKey<E>,
    structure: Structure<E>,
    U1: FoldedInstance<E>,
    W1: FoldedWitness<E>,
    U2: R1CSInstance<E>,
    W2: R1CSWitness<E>,
    weights: Seq<E::Scalar>,
    r_E: int,
    comm_E: int,
    poly: Seq<int>,
    rho: int,
    r_b: int,
    U: FoldedInstance<E>,
    W: FoldedWitness<E>,
)
    requires
        fold_shaped(ck, structure, U1, W1, U2, W2),
        weights.len() == structure.left + structure.right,
        comm_E == ck.commitment(vals(weights), r_E),
        structure.satisfied_by(ck, U1, W1),
        structure.S.satisfied_by(ck, U2, W2),
        round_poly(
            E::Scalar::modulus(),
            poly,
            |y: int|
                claim_between(
                    structure.S,
                    fold_points(structure, U1, W1, U2, W2, vals(weights)).0,
                    fold_points(structure, U1, W1, U2, W2, vals(weights)).1,
                    y,
                ),
            rho,
            (U1.T.val() * (1 - rho)) % E::Scalar::modulus(),
        ),
        eq_at(E::Scalar::modulus(), rho, r_b) != 0,
        claim_carried(
            E::Scalar::modulus(),
            poly,
            eq_at(E::Scalar::modulus(), rho, r_b),
            r_b,
            U.T.val(),
        ),
        U.X@.len() == 1,
        U.X@[0].val() == line(E::Scalar::modulus(), U1.X@[0].val(), U2.X@[0].val(), r_b),
        U.u.val() == line(E::Scalar::modulus(), U1.u.val(), 1, r_b),
        U.comm_W.log() == line(E::Scalar::modulus(), U1.comm_W.log(), U2.comm_W.log(), r_b),
        U.comm_E.log() == line(E::Scalar::modulus(), U1.comm_E.log(), comm_E, r_b),
        vals(W.W@) == between(E::Scalar::modulus(), vals(W1.W@), vals(W2.W@), r_b),
        vals(W.E@) == between(E::Scalar::modulus(), vals(W1.E@), vals(weights), r_b),
        W.r_W.val() == line(E::Scalar::modulus(), W1.r_W.val(), W2.r_W.val(), r_b),
        W.r_E.val() == line(E::Scalar::modulus(), W1.r_E.val(), r_E, r_b),
    ensures
        structure.satisfied_by(ck, U, W),
{
    let p = E::Scalar::modulus();
    E::Scalar::lemma_modulus();
    let l = structure.left as int;
    let (a, b) = fold_points(structure, U1, W1, U2, W2, vals(weights));
    let z2 = full_vector(vals(W2.W@), 1, vals(U2.X@));
    assert(vals(W.W@).len() == W.W@.len());
    assert(vals(W.E@).len() == W.E@.len());
    assert(vals(W1.W@).len() == W1.W@.len());
    assert(vals(W2.W@).len() == W2.W@.len());
    assert(vals(W1.E@).len() == W1.E@.len());
    lemma_point_ends(a, b, structure, U1, W1, U2, W2, weights);
    E::Scalar::lemma_val(U.T);
    law_fold_carries_claim(structure, a, b, poly, rho, U1.T.val(), r_b, U.T.val());
    let c = grid_between(p, a, b, r_b);
    assert(c.e_left =~= vals(W.E@).take(l));
    assert(c.e_right =~= vals(W.E@).skip(l));
    let z = full_vector(vals(W.W@), U.u.val(), vals(U.X@));
    assert(c.z =~= z) by {
        assert(c.z.len() == z.len());
        assert forall|i: int| 0 <= i < z.len() implies c.z[i] == z[i] by {
            let n = W1.W@.len();
            if i < n {
                assert(a.z[i] == vals(W1.W@)[i]);
                assert(b.z[i] == vals(W2.W@)[i]);
            } else if i == n {
                assert(a.z[i] == U1.u.val());
                assert(b.z[i] == 1);
            } else {
                assert(a.z[i] == U1.X@[0].val());
                assert(b.z[i] == U2.X@[0].val());
            }
        }
    }
    law_commitment_between(
        ck,
        vals(W1.W@),
        W1.r_W.val(),
        vals(W2.W@),
        W2.r_W.val(),
        r_b,
    );
    law_commitment_between(ck, vals(W1.E@), W1.r_E.val(), vals(weights), r_E, r_b);
}

/// The ends of the line between the two points are the points.
proof fn lemma_point_ends<E: Engine>(
    a: GridPoint,
    b: GridPoint,
    structure: Structure<E>,
    U1: FoldedInstance<E>,
    W1: FoldedWitness<E>,
    U2: R1CSInstance<E>,
    W2: R1CSWitness<E>,
    weights: Seq<E::Scalar>,
)
    requires
        (a, b) == fold_points(structure, U1, W1, U2, W2, vals(weights)),
        U1.X@.len() == 1,
        U2.X@.len() == 1,
        W1.W@.len() == W2.W@.len(),
        W1.E@.len() == structure.left + structure.right,
        weights.len() == W1.E@.len(),
    ensures
        grid_between(E::Scalar::modulus(), a, b, 0) == a,
        grid_between(E::Scalar::modulus(), a, b, 1) == b,
{
    let p = E::Scalar::modulus();
    E::Scalar::lemma_modulus();
    lemma_between_ends(W1.W@, W2.W@);
    lemma_between_ends(W1.E@, weights);
    lemma_between_ends(U1.X@, U2.X@);
    let l = structure.left as int;
    let a0 = grid_between(p, a, b, 0);
    let a1 = grid_between(p, a, b, 1);
    let n = W1.W@.len();
    let u1 = U1.u.val();
    E::Scalar::lemma_val(U1.u);
    lemma_reduced(p, u1);
    lemma_reduced(p, 1);
    assert(u1 + 0 * (1 - u1) == u1);
    assert(u1 + 1 * (1 - u1) == 1);
    assert forall|i: int| 0 <= i < a.z.len() implies a0.z[i] == a.z[i] && a1.z[i] == b.z[i] by {
        if i < n {
            assert(a.z[i] == vals(W1.W@)[i]);
            assert(b.z[i] == vals(W2.W@)[i]);
            assert(between(p, vals(W1.W@), vals(W2.W@), 0)[i] == vals(W1.W@)[i]);
            assert(between(p, vals(W1.W@), vals(W2.W@), 1)[i] == vals(W2.W@)[i]);
        } else if i == n {
            assert(a.z[i] == u1);
            assert(b.z[i] == 1);
        } else {
            assert(a.z[i] == vals(U1.X@)[0]);
            assert(b.z[i] == vals(U2.X@)[0]);
            assert(between(p, vals(U1.X@), vals(U2.X@), 0)[0] == vals(U1.X@)[0]);
            assert(between(p, vals(U1.X@), vals(U2.X@), 1)[0] == vals(U2.X@)[0]);
        }
    }
    assert(a0.z =~= a.z);
    assert(a1.z =~= b.z);
    let e1 = vals(W1.E@);
    let e2 = vals(weights);
    assert forall|i: int| 0 <= i < e1.len() implies line(p, #[trigger] e1[i], e2[i], 0) == e1[i]
        && line(p, e1[i], e2[i], 1) == e2[i] by {
        assert(between(p, e1, e2, 0)[i] == e1[i]);
        assert(between(p, e1, e2, 1)[i] == e2[i]);
    }
    assert forall|i: int| 0 <= i < l implies a0.e_left[i] == a.e_left[i] && a1.e_left[i]
        == b.e_left[i] by {
        assert(a.e_left[i] == e1[i]);
        assert(b.e_left[i] == e2[i]);
    }
    assert forall|i: int| 0 <= i < structure.right implies a0.e_right[i] == a.e_right[i]
        && a1.e_right[i] == b.e_right[i] by {
        assert(a.e_right[i] == e1[i + l]);
        assert(b.e_right[i] == e2[i + l]);
    }
    assert(a0.e_left =~= a.e_left);
    assert(a1.e_left =~= b.e_left);
    assert(a0.e_right =~= a.e_right);
    assert(a1.e_right =~= b.e_right);
}

/// What a fold yields is what its message says: the message itself, and a witness and lookups
/// on the lines between the two sides at the challenge.
pub open spec fn fold_follows<E: Engine>(
    out: FoldOutput<E>,
    m: FoldMessage<E>,
    pp: int,
    U1: FoldedInstance<E>,
    W1: FoldedWitness<E>,
    U2: R1CSInstance<E>,
    W2: R1CSWitness<E>,
    bundles: Seq<PerTableBundle<E>>,
    public: Seq<LookupPayloadPublicMultiTable<E>>,
    r_E: int,
) -> bool {
    let p = E::Scalar::modulus();
    let r_b = fold_r_b::<E>(fold_input(pp, U1, U2, m.nifs, public));
    &&& out.nifs.comm_E == m.nifs.comm_E
    &&& out.nifs.poly == m.nifs.poly
    &&& out.nifs.poly_lookup == m.nifs.poly_lookup
    &&& out.nifs.comm_inv_w == m.nifs.comm_inv_w
    &&& out.nifs.comm_inv_t == m.nifs.comm_inv_t
    &&& vals(out.W.W@) == between(p, vals(W1.W@), vals(W2.W@), r_b)
    &&& vals(out.W.E@) == between(p, vals(W1.E@), vals(m.weights@), r_b)
    &&& out.W.r_W.val() == line(p, W1.r_W.val(), W2.r_W.val(), r_b)
    &&& out.W.r_E.val() == line(p, W1.r_E.val(), r_E, r_b)
    &&& out.lws@.len() == bundles.len()
    &&& forall|j: int|
        0 <= j < bundles.len() ==> running_between(
            m.tables.instances@[j],
            r_b,
            #[trigger] out.lws@[j],
        )
}

/// The logarithms of the commitments of a running instance; zeros where there are none yet.
pub open spec fn logs_or_zeros<E: Engine>(v: Option<Vec<E::GE>>, k: nat) -> Seq<int> {
    match v {
        Some(x) => logs::<E>(x@),
        None => Seq::new(k, |j: int| 0int),
    }
}

/// The folded commitments of the tables are, at `r_b`, on the lines from the running ones to those
/// of the bundles: to the combined columns and to the multiplicities.
pub open spec fn points_follow<E: Engine>(
    out: FoldOutput<E>,
    m: FoldMessage<E>,
    bundles: Seq<PerTableBundle<E>>,
    L: Seq<int>,
    ts: Seq<int>,
    r_b: int,
) -> bool {
    let p = E::Scalar::modulus();
    &&& opt_len(out.nifs.comm_L_fold_per_table) == bundles.len()
    &&& opt_len(out.nifs.comm_ts_fold_per_table) == bundles.len()
    &&& forall|j: int|
        0 <= j < bundles.len() ==> (
        #[trigger] out.nifs.comm_L_fold_per_table->Some_0@[j]).log() == line(
            p,
            L[j],
            combined_point(
                p,
                bundles[j].payload.comm_L.log(),
                logs::<E>(bundles[j].payload.comm_values@),
                m.tables.gammas@[j].val(),
            ),
            r_b,
        )
    &&& forall|j: int|
        0 <= j < bundles.len() ==> (
        #[trigger] out.nifs.comm_ts_fold_per_table->Some_0@[j]).log() == line(
            p,
            ts[j],
            bundles[j].payload.comm_ts.log(),
            r_b,
        )
}

/// Folds with a message that is ready; an error where the equality polynomial vanishes.
pub fn complete_fold<E: Engine>(
    message: FoldMessage<E>,
    ck: &CommitmentKey<E>,
    structure: &Structure<E>,
    pp_digest: E::Scalar,
    U1: &FoldedInstance<E>,
    W1: &FoldedWitness<E>,
    U2: &R1CSInstance<E>,
    W2: &R1CSWitness<E>,
    bundles: &Vec<PerTableBundle<E>>,
    Ghost(tables): Ghost<Seq<MultiColumnLookupTable<E>>>,
    public: &Vec<LookupPayloadPublicMultiTable<E>>,
    comm_L: &Vec<E::GE>,
    comm_ts: &Vec<E::GE>,
    r_E: E::Scalar,
) -> (r: Result<FoldOutput<E>, NovaError>)
    requires
        fold_shaped(*ck, *structure, *U1, *W1, *U2, *W2),
        bundles_fit(bundles@, tables, ck.ck@.len()),
        public_of(public@, bundles@),
        bundles@.len() > 0 && U1.T_lookup is Some ==> opt_len(U1.T_lookup) == bundles@.len(),
        bundles@.len() > 0 && U1.comm_L is Some ==> comm_L@ == table_points::<E>(U1.comm_L),
        bundles@.len() > 0 && U1.comm_ts is Some ==> comm_ts@ == table_points::<E>(U1.comm_ts),
        comm_L@.len() == bundles@.len(),
        comm_ts@.len() == bundles@.len(),
        message_for(
            message,
            *ck,
            *structure,
            pp_digest.val(),
            *U1,
            *W1,
            *U2,
            *W2,
            bundles@,
            tables,
            public@,
            r_E.val(),
        ),
    ensures
        r is Ok <==> fold_eq::<E>(
            fold_input(pp_digest.val(), *U1, *U2, message.nifs, public@),
        ) != 0,
        r is Err ==> r->Err_0 == NovaError::InvalidInversion,
        r is Ok ==> fold_done(
            r->Ok_0,
            *ck,
            *structure,
            pp_digest.val(),
            *U1,
            *W1,
            *U2,
            *W2,
            bundles@,
            public@,
        ),
        r is Ok ==> fold_follows(
            r->Ok_0,
            message,
            pp_digest.val(),
            *U1,
            *W1,
            *U2,
            *W2,
            bundles@,
            public@,
            r_E.val(),
        ),
        r is Ok ==> points_follow(
            r->Ok_0,
            message,
            bundles@,
            logs::<E>(comm_L@),
            logs::<E>(comm_ts@),
            fold_r_b::<E>(fold_input(pp_digest.val(), *U1, *U2, message.nifs, public@)),
        ),
{
    let ghost p = E::Scalar::modulus();
    let ghost k = bundles@.len();
    let ghost x = fold_input(pp_digest.val(), *U1, *U2, message.nifs, public@);
    let FoldMessage { nifs: said_nifs, weights, tables: messages } = message;
    let (rho, r_b) = said_nifs.challenges(pp_digest, U2, public, Ghost(*U1));
    if eq_of(rho, r_b).same(E::Scalar::zero()) {
        return Err(NovaError::InvalidInversion);
    }
    proof {
        assert forall|j: int| 0 <= j < k implies (#[trigger] messages.instances@[j]).wf() by {
            assert(table_kept(
                messages,
                said_nifs,
                x,
                bundles@,
                tables,
                running_or_zeros(U1@.T_lookup, bundles@.len()),
                j,
            ));
        }
    }
    let folded = fold_tables(&messages, bundles, comm_L, comm_ts, r_b);
    let ghost folded0 = folded;
    let FoldedTables { lws, comm_L: L_fold, comm_ts: ts_fold } = folded;
    let NIFS {
        comm_E,
        poly,
        poly_lookup,
        comm_inv_w,
        comm_inv_t,
        comm_L_fold_per_table: _,
        comm_ts_fold_per_table: _,
    } = said_nifs;
    let nifs = NIFS {
        comm_E,
        poly,
        poly_lookup,
        comm_inv_w,
        comm_inv_t,
        comm_L_fold_per_table: Some(L_fold),
        comm_ts_fold_per_table: Some(ts_fold),
    };
    assert(fold_input(pp_digest.val(), *U1, *U2, nifs, public@) == x);
    let U = match nifs.verify_with_multi_table_lookup(pp_digest, U1, U2, public) {
        Ok(u) => u,
        Err(_) => {
            return Err(NovaError::InvalidInversion);
        },
    };
    proof {
        assert(vals(weights@).len() == weights@.len());
    }
    let W = FoldedWitness {
        W: scalars_between(&W1.W, &W2.W, r_b),
        r_W: line_at(W1.r_W, W2.r_W, r_b),
        E: scalars_between(&W1.E, &weights, r_b),
        r_E: line_at(W1.r_E, r_E, r_b),
    };
    proof {
        let out = before_renewal(U@, U1@);
        assert(U.X@[0].val() == vals(U.X@)[0]);
        assert(U1.X@[0].val() == vals(U1.X@)[0]);
        assert(out.X == seq![line(p, U1@.X[0], x.U2.X, r_b.val())]);
        if structure.satisfied_by(*ck, *U1, *W1) && structure.S.satisfied_by(*ck, *U2, *W2) {
            lemma_fold_satisfied(
                *ck,
                *structure,
                *U1,
                *W1,
                *U2,
                *W2,
                weights@,
                r_E.val(),
                comm_E.log(),
                x.poly,
                rho.val(),
                r_b.val(),
                U,
                W,
            );
        }
        if k > 0 && committed(
            *ck,
            running_of(bundles@),
            table_points::<E>(U1.comm_L),
            table_points::<E>(U1.comm_ts),
        ) && (forall|j: int|
            0 <= j < bundles@.len() ==> bundle_committed(*ck, #[trigger] bundles@[j])) {
            let rs = Seq::new(k, |j: int| fold_r::<E>(x, j as nat));
            assert forall|j: int| 0 <= j < k implies instance_of(
                #[trigger] messages.instances@[j],
                bundles@[j],
                tables[j],
                messages.gammas@[j].val(),
                rs[j],
            ) by {
                assert(table_kept(
                    messages,
                    said_nifs,
                    x,
                    bundles@,
                    tables,
                    running_or_zeros(U1@.T_lookup, bundles@.len()),
                    j,
                ));
            }
            law_fold_keeps_commitments(
                *ck,
                folded0,
                messages,
                bundles@,
                tables,
                rs,
                comm_L@,
                comm_ts@,
                r_b.val(),
            );
            assert(committed(*ck, lws@, L_fold@, ts_fold@));
            assert(table_points::<E>(U.comm_L) == L_fold@);
            assert(table_points::<E>(U.comm_ts) == ts_fold@);
        }
    }
    proof {
        assert forall|j: int| 0 <= j < k implies running_between(
            messages.instances@[j],
            r_b.val(),
            #[trigger] lws@[j],
        ) by {
            assert(table_folded(folded0, messages, bundles@, comm_L@, comm_ts@, r_b.val(), j));
        }
        assert forall|j: int| 0 <= j < k implies (#[trigger] L_fold@[j]).log() == line(
            p,
            logs::<E>(comm_L@)[j],
            combined_point(
                p,
                bundles@[j].payload.comm_L.log(),
                logs::<E>(bundles@[j].payload.comm_values@),
                messages.gammas@[j].val(),
            ),
            r_b.val(),
        ) by {
            assert(table_folded(folded0, messages, bundles@, comm_L@, comm_ts@, r_b.val(), j));
        }
        assert forall|j: int| 0 <= j < k implies (#[trigger] ts_fold@[j]).log() == line(
            p,
            logs::<E>(comm_ts@)[j],
            bundles@[j].payload.comm_ts.log(),
            r_b.val(),
        ) by {
            assert(table_folded(folded0, messages, bundles@, comm_L@, comm_ts@, r_b.val(), j));
        }
    }
    Ok(FoldOutput { nifs, U, W, lws })
}

/// The vectors of a bundle do not fit.
pub const BUNDLE_SHAPE: &'static str = "fold: the vectors of a bundle do not fit its table";

/// The bundles and the running instance go together; a running instance may have nothing on
/// tables yet.
pub open spec fn fold_ready<E: Engine>(
    ck: CommitmentKey<E>,
    U1: FoldedInstance<E>,
    bundles: Seq<PerTableBundle<E>>,
    tables: Seq<MultiColumnLookupTable<E>>,
) -> bool {
    &&& bundles_fit(bundles, tables, ck.ck@.len())
    &&& bundles.len() > 0 ==> {
        &&& U1.T_lookup is Some ==> opt_len(U1.T_lookup) == bundles.len()
        &&& U1.comm_L is Some ==> opt_len(U1.comm_L) == bundles.len()
        &&& U1.comm_ts is Some ==> opt_len(U1.comm_ts) == bundles.len()
    }
}

/// The commitments of `k` tables; the neutral element where there are none yet.
fn points_or_neutral<E: Engine>(v: &Option<Vec<E::GE>>, k: usize) -> (r: Vec<E::GE>)
    ensures
        v is Some ==> r@ == table_points::<E>(*v),
        v is None ==> r@.len() == k,
        logs::<E>(r@) == logs_or_zeros::<E>(*v, k as nat),
{
    let r = match v {
        Some(x) => copy_points::<E>(x),
        None => repeat_identity::<E>(k),
    };
    assert(logs::<E>(r@) =~= logs_or_zeros::<E>(*v, k as nat));
    r
}

impl<E: Engine> NIFS<E> {
    /// Folds `U2` into `U1` with the lookups of the bundles, under the blinding `r_E` of the new
    /// weights. It is an error if the bundles do not fit, if the challenge of a table meets a
    /// lookup or an entry, or if the equality polynomial vanishes at the challenges of the
    /// message; otherwise the fold follows its message.
    pub fn prove_with_multi_table_lookup(
        ck: &CommitmentKey<E>,
        structure: &Structure<E>,
        pp_digest: E::Scalar,
        U1: &FoldedInstance<E>,
        W1: &FoldedWitness<E>,
        U2: &R1CSInstance<E>,
        W2: &R1CSWitness<E>,
        bundles: &Vec<PerTableBundle<E>>,
        tables: &Vec<MultiColumnLookupTable<E>>,
        public: &Vec<LookupPayloadPublicMultiTable<E>>,
        r_E: E::Scalar,
    ) -> (r: Result<FoldOutput<E>, NovaError>)
        requires
            fold_shaped(*ck, *structure, *U1, *W1, *U2, *W2),
            public_of(public@, bundles@),
        ensures
            !fold_ready(*ck, *U1, bundles@, tables@) <==> r is Err && r->Err_0 is ProofVerifyError,
            r is Err && r->Err_0 is ProofVerifyError ==> r->Err_0->ProofVerifyError_reason@
                == BUNDLE_SHAPE@,
            r is Err ==> r->Err_0 is ProofVerifyError || r->Err_0 == NovaError::InvalidInversion,
            fold_ready(*ck, *U1, bundles@, tables@) && !lookups_invertible::<E>(
                weighted_input(
                    *ck,
                    *structure,
                    pp_digest.val(),
                    *U1,
                    *U2,
                    public@,
                    r_E.val(),
                ),
                bundles@,
                tables@,
            ) ==> r is Err,
            fold_ready(*ck, *U1, bundles@, tables@) && lookups_invertible::<E>(
                weighted_input(
                    *ck,
                    *structure,
                    pp_digest.val(),
                    *U1,
                    *U2,
                    public@,
                    r_E.val(),
                ),
                bundles@,
                tables@,
            ) ==> exists|m: FoldMessage<E>|
                {
                    &&& #[trigger] message_for(
                        m,
                        *ck,
                        *structure,
                        pp_digest.val(),
                        *U1,
                        *W1,
                        *U2,
                        *W2,
                        bundles@,
                        tables@,
                        public@,
                        r_E.val(),
                    )
                    &&& r is Ok <==> fold_eq::<E>(
                        fold_input(pp_digest.val(), *U1, *U2, m.nifs, public@),
                    ) != 0
                    &&& r is Ok ==> fold_follows(
                        r->Ok_0,
                        m,
                        pp_digest.val(),
                        *U1,
                        *W1,
                        *U2,
                        *W2,
                        bundles@,
                        public@,
                        r_E.val(),
                    )
                    &&& inverses_sent(m, *ck, bundles@.len())
                    &&& r is Ok ==> points_follow(
                        r->Ok_0,
                        m,
                        bundles@,
                        logs_or_zeros::<E>(U1.comm_L, bundles@.len()),
                        logs_or_zeros::<E>(U1.comm_ts, bundles@.len()),
                        fold_r_b::<E>(
                            fold_input(pp_digest.val(), *U1, *U2, m.nifs, public@),
                        ),
                    )
                },
            r is Ok ==> fold_done(
                r->Ok_0,
                *ck,
                *structure,
                pp_digest.val(),
                *U1,
                *W1,
                *U2,
                *W2,
                bundles@,
                public@,
            ),
    {
        let k: usize = bundles.len();
        if !fits_bundles(bundles, tables, ck.ck.len()) || (k > 0 && ((U1.T_lookup.is_some()
            && count(&U1.T_lookup) != k) || (U1.comm_L.is_some() && count(&U1.comm_L) != k) || (
        U1.comm_ts.is_some() && count(&U1.comm_ts) != k))) {
            return Err(NovaError::ProofVerifyError { reason: BUNDLE_SHAPE.to_owned() });
        }
        let running = if k > 0 {
            running_claims(&U1.T_lookup, k)
        } else {
            Vec::new()
        };
        let comm_L = if k > 0 {
            points_or_neutral::<E>(&U1.comm_L, k)
        } else {
            Vec::new()
        };
        let comm_ts = if k > 0 {
            points_or_neutral::<E>(&U1.comm_ts, k)
        } else {
            Vec::new()
        };
        assert(vals(running@).len() == running@.len());
        let message = match fold_message(
            ck,
            structure,
            pp_digest,
            U1,
            W1,
            U2,
            W2,
            bundles,
            tables,
            public,
            &running,
            r_E,
        ) {
            Ok(m) => m,
            Err(e) => {
                return Err(e);
            },
        };
        complete_fold(
            message,
            ck,
            structure,
            pp_digest,
            U1,
            W1,
            U2,
            W2,
            bundles,
            Ghost(tables@),
            public,
            &comm_L,
            &comm_ts,
            r_E,
        )
    }
}

/// A message of the prover satisfies a circuit that reads it, with lookups in several tables: the
/// checks hold, and the circuit yields the folded instance and the claims of the prover.
pub proof fn law_honest_multi_table_fold<E: Engine>(
    done: FoldOutput<E>,
    ck: CommitmentKey<E>,
    structure: Structure<E>,
    pp: int,
    U1: FoldedInstance<E>,
    W1: FoldedWitness<E>,
    U2: R1CSInstance<E>,
    W2: R1CSWitness<E>,
    bundles: Seq<PerTableBundle<E>>,
    public: Seq<LookupPayloadPublicMultiTable<E>>,
    plain: FoldInput,
    lookups: AllocatedLookupNIFSMultiTable<E>,
    payloads: Seq<AllocatedLookupPayloadPublicMultiTable<E>>,
    running: Seq<AllocatedNum<E::Scalar>>,
    e: Valuation,
    comm_w: Seq<int>,
    comm_e: Seq<int>,
    out: FoldedVal,
    t_outs: Seq<int>,
)
    requires
        fold_done(done, ck, structure, pp, U1, W1, U2, W2, bundles, public),
        reads_fold(plain, pp, U1, U2, done.nifs),
        reads_tables(lookups, payloads, running, e, U1, done.nifs, public),
        folds_to::<E>(
            multi_table_input(plain, lookups, payloads_at(payloads, e), nums_at(running, e), e),
            comm_w,
            comm_e,
            out,
            t_outs,
        ),
    ensures
        fold_checks::<E>(
            multi_table_input(plain, lookups, payloads_at(payloads, e), nums_at(running, e), e),
        ),
        out == (FoldedVal { comm_W: comm_w, comm_E: comm_e, ..before_renewal(done.U@, U1@) }),
        done.U@.T_lookup == Some(t_outs),
{
    law_multi_table_matches_native(
        pp,
        U1,
        U2,
        done.nifs,
        public,
        done.U,
        plain,
        lookups,
        payloads,
        running,
        e,
        comm_w,
        comm_e,
        out,
        t_outs,
    );
}

/// A message of the prover satisfies a circuit that reads it, with lookups in one table that may
/// have value columns: the checks hold, and the circuit yields the folded instance and the claim
/// of the prover.
pub proof fn law_honest_multi_column_fold<E: Engine>(
    done: FoldOutput<E>,
    ck: CommitmentKey<E>,
    structure: Structure<E>,
    pp: int,
    U1: FoldedInstance<E>,
    W1: FoldedWitness<E>,
    U2: R1CSInstance<E>,
    W2: R1CSWitness<E>,
    bundles: Seq<PerTableBundle<E>>,
    table: LookupPayloadPublicMultiTable<E>,
    plain: FoldInput,
    lookup: AllocatedLookupNIFS<E>,
    comm_L: AllocatedNonnativePoint<E>,
    comm_values: Seq<AllocatedNonnativePoint<E>>,
    comm_ts: AllocatedNonnativePoint<E>,
    running: AllocatedNum<E::Scalar>,
    e: Valuation,
    comm_w: Seq<int>,
    comm_e: Seq<int>,
    out: FoldedVal,
    t_out: int,
)
    requires
        fold_done(done, ck, structure, pp, U1, W1, U2, W2, bundles, seq![table]),
        reads_fold(plain, pp, U1, U2, done.nifs),
        reads_table(
            lookup,
            table_at(comm_L, comm_values, comm_ts, e),
            running,
            e,
            U1,
            done.nifs,
            table,
        ),
        folds_to::<E>(
            lookup_input(
                plain,
                lookup,
                table_at(comm_L, comm_values, comm_ts, e),
                running.at(e),
                e,
            ),
            comm_w,
            comm_e,
            out,
            seq![t_out],
        ),
    ensures
        fold_checks::<E>(
            lookup_input(
                plain,
                lookup,
                table_at(comm_L, comm_values, comm_ts, e),
                running.at(e),
                e,
            ),
        ),
        out == (FoldedVal { comm_W: comm_w, comm_E: comm_e, ..before_renewal(done.U@, U1@) }),
        done.U@.T_lookup == Some(seq![t_out]),
{
    law_multi_column_matches_native(
        pp,
        U1,
        U2,
        done.nifs,
        table,
        done.U,
        plain,
        lookup,
        comm_L,
        comm_values,
        comm_ts,
        running,
        e,
        comm_w,
        comm_e,
        out,
        t_out,
    );
}

/// The new weights are one for each column and each row of the grid, and the two weights of a cell
/// multiply to the power of `tau` whose exponent is the number of the cell, counted row by row.
pub proof fn law_fresh_weights_are_powers<E: Engine>(
    structure: Structure<E>,
    tau: int,
    i: int,
    k: int,
)
    requires
        0 <= i < structure.right,
        0 <= k < structure.left,
    ensures
        fresh_weights(structure, tau).len() == structure.left + structure.right,
        fresh_weights(structure, tau)[k] == pow(tau, k as nat) % E::Scalar::modulus(),
        (fresh_weights(structure, tau)[k] * fresh_weights(structure, tau)[structure.left + i])
            % E::Scalar::modulus() == pow(tau, (i * structure.left + k) as nat)
            % E::Scalar::modulus(),
{
    let p = E::Scalar::modulus();
    E::Scalar::lemma_modulus();
    let n = structure.left as nat;
    let w = fresh_weights(structure, tau);
    let b = power(p, tau, n);
    assert(w[k] == power(p, tau, k as nat));
    assert(w[n + i] == power(p, b, i as nat));
    law_power(p, tau, k as nat);
    law_power(p, tau, n);
    law_power(p, b, i as nat);
    lemma_pow_mod_noop(pow(tau, n), i as nat, p);
    lemma_pow_multiplies(tau, n, i as nat);
    assert(w[n + i] == pow(tau, n * (i as nat)) % p);
    assert(n * (i as nat) == i * n) by (nonlinear_arith)
        requires
            i >= 0,
    ;
    lemma_pow_adds(tau, (i * n) as nat, k as nat);
    let (u, v) = (pow(tau, k as nat), pow(tau, (i * n) as nat));
    lemma_residue(p, u);
    lemma_residue(p, v);
    lemma_cong_mul(p, u % p, v % p, u, v);
    assert(u * v == v * u) by (nonlinear_arith);
}

/// The prover commits to the new weights under the blinding that it is given, and what it folds to
/// is, at the last challenge and place by place, the running witness times `1 - r` plus the
/// witness folded in times `r`; in the same way the weights, with the new ones, and both blindings.
/// In every table it takes up the running lookups beside those of the bundle, with true inverses
/// of the latter under the challenge of the table, and sends the commitments to these; the lookups
/// that it goes on with lie between the two.
pub proof fn law_prover_folds<E: Engine>(
    out: FoldOutput<E>,
    m: FoldMessage<E>,
    ck: CommitmentKey<E>,
    structure: Structure<E>,
    pp: int,
    U1: FoldedInstance<E>,
    W1: FoldedWitness<E>,
    U2: R1CSInstance<E>,
    W2: R1CSWitness<E>,
    bundles: Seq<PerTableBundle<E>>,
    tables: Seq<MultiColumnLookupTable<E>>,
    public: Seq<LookupPayloadPublicMultiTable<E>>,
    r_E: int,
)
    requires
        fold_shaped(ck, structure, U1, W1, U2, W2),
        message_for(m, ck, structure, pp, U1, W1, U2, W2, bundles, tables, public, r_E),
        inverses_sent(m, ck, bundles.len()),
        fold_follows(out, m, pp, U1, W1, U2, W2, bundles, public, r_E),
    ensures
        ({
            let p = E::Scalar::modulus();
            let x = fold_input(pp, U1, U2, m.nifs, public);
            let r = E::challenge(r_b_log(x), 128);
            let tau = E::challenge(tau_log(x), 128);
            &&& out.nifs.comm_E.log() == ck.commitment(fresh_weights(structure, tau), r_E)
            &&& m.weights@.len() == structure.left + structure.right
            &&& out.W.W@.len() == W1.W@.len()
            &&& out.W.E@.len() == W1.E@.len()
            &&& forall|i: int|
                0 <= i < W1.W@.len() ==> (#[trigger] out.W.W@[i]).val() == ((1 - r)
                    * W1.W@[i].val() + r * W2.W@[i].val()) % p
            &&& forall|i: int|
                0 <= i < W1.E@.len() ==> (#[trigger] out.W.E@[i]).val() == ((1 - r)
                    * W1.E@[i].val() + r * fresh_weights(structure, tau)[i]) % p
            &&& out.W.r_W.val() == ((1 - r) * W1.r_W.val() + r * W2.r_W.val()) % p
            &&& out.W.r_E.val() == ((1 - r) * W1.r_E.val() + r * r_E) % p
            &&& out.lws@.len() == bundles.len()
            &&& forall|j: int|
                0 <= j < bundles.len() ==> {
                    let inst = #[trigger] m.tables.instances@[j];
                    let c = fold_r::<E>(x, j as nat);
                    let gamma = table_gamma::<E>(x, j);
                    &&& running_between(inst, r, out.lws@[j])
                    &&& inst.wf()
                    &&& inst.inv_w1_poly.Z@ == bundles[j].running_lw.inv_w@
                    &&& inst.inv_t1_poly.Z@ == bundles[j].running_lw.inv_t@
                    &&& vals(inst.w2_poly.Z@) == fresh_lookups(bundles[j], gamma)
                    &&& vals(inst.t2_poly.Z@) == table_column(tables[j], gamma)
                    &&& inst.eq_w1_left@ == bundles[j].running_lw.eq_w_left@
                    &&& inst.eq_w1_right@ == bundles[j].running_lw.eq_w_right@
                    &&& inst.eq_t1_left@ == bundles[j].running_lw.eq_t_left@
                    &&& inst.eq_t1_right@ == bundles[j].running_lw.eq_t_right@
                    &&& inst.eq_w2_left@ == bundles[j].fresh_eq_w_left@
                    &&& inst.eq_w2_right@ == bundles[j].fresh_eq_w_right@
                    &&& inst.eq_t2_left@ == bundles[j].fresh_eq_t_left@
                    &&& inst.eq_t2_right@ == bundles[j].fresh_eq_t_right@
                    &&& m.tables.gammas@[j].val() == gamma
                    &&& inst.r.val() == c
                    &&& inst.w1_poly.Z@ == bundles[j].running_lw.witness@
                    &&& inst.t1_poly.Z@ == bundles[j].running_lw.table@
                    &&& inst.ts1_poly.Z@ == bundles[j].running_lw.multiplicities@
                    &&& inst.ts2_poly.Z@ == bundles[j].fresh_multiplicities@
                    &&& out.nifs.comm_inv_w->Some_0@[j].log() == ck.commitment(
                        vals(inst.inv_w2_poly.Z@),
                        0,
                    )
                    &&& out.nifs.comm_inv_t->Some_0@[j].log() == ck.commitment(
                        vals(inst.inv_t2_poly.Z@),
                        0,
                    )
                    &&& forall|i: int|
                        0 <= i < inst.w2_poly.Z@.len() ==> ((inst.w2_poly.Z@[i].val() + c) * (
                        #[trigger] inst.inv_w2_poly.Z@[i]).val()) % p == 1
                    &&& forall|i: int|
                        0 <= i < inst.t2_poly.Z@.len() ==> ((inst.t2_poly.Z@[i].val() + c) * (
                        #[trigger] inst.inv_t2_poly.Z@[i]).val()) % p
                            == bundles[j].fresh_multiplicities@[i].val()
                }
        }),
{
    let p = E::Scalar::modulus();
    E::Scalar::lemma_modulus();
    let x = fold_input(pp, U1, U2, m.nifs, public);
    let r = fold_r_b::<E>(x);
    let w = fresh_weights(structure, fold_tau::<E>(x));
    assert(vals(m.weights@).len() == m.weights@.len());
    assert(vals(out.W.W@).len() == out.W.W@.len() && vals(W1.W@).len() == W1.W@.len());
    assert(vals(out.W.E@).len() == out.W.E@.len() && vals(W1.E@).len() == W1.E@.len());
    assert forall|i: int| 0 <= i < W1.W@.len() implies (#[trigger] out.W.W@[i]).val() == ((1 - r)
        * W1.W@[i].val() + r * W2.W@[i].val()) % p by {
        law_between_mixes(p, vals(W1.W@), vals(W2.W@), r, i);
        assert(vals(out.W.W@)[i] == out.W.W@[i].val());
    }
    assert forall|i: int| 0 <= i < W1.E@.len() implies (#[trigger] out.W.E@[i]).val() == ((1 - r)
        * W1.E@[i].val() + r * w[i]) % p by {
        law_between_mixes(p, vals(W1.E@), vals(m.weights@), r, i);
        assert(vals(out.W.E@)[i] == out.W.E@[i].val());
    }
    let (a, b) = (W1.r_W.val(), W2.r_W.val());
    assert(a + r * (b - a) == (1 - r) * a + r * b) by (nonlinear_arith);
    let c = W1.r_E.val();
    assert(c + r * (r_E - c) == (1 - r) * c + r * r_E) by (nonlinear_arith);
    assert forall|j: int| 0 <= j < bundles.len() implies {
        let inst = #[trigger] m.tables.instances@[j];
        let c = fold_r::<E>(x, j as nat);
        &&& running_between(inst, r, out.lws@[j])
        &&& inst.wf()
        &&& inst.inv_w1_poly.Z@ == bundles[j].running_lw.inv_w@
        &&& inst.inv_t1_poly.Z@ == bundles[j].running_lw.inv_t@
        &&& vals(inst.w2_poly.Z@) == fresh_lookups(bundles[j], table_gamma::<E>(x, j))
        &&& vals(inst.t2_poly.Z@) == table_column(tables[j], table_gamma::<E>(x, j))
        &&& inst.eq_w1_left@ == bundles[j].running_lw.eq_w_left@
        &&& inst.eq_w1_right@ == bundles[j].running_lw.eq_w_right@
        &&& inst.eq_t1_left@ == bundles[j].running_lw.eq_t_left@
        &&& inst.eq_t1_right@ == bundles[j].running_lw.eq_t_right@
        &&& inst.eq_w2_left@ == bundles[j].fresh_eq_w_left@
        &&& inst.eq_w2_right@ == bundles[j].fresh_eq_w_right@
        &&& inst.eq_t2_left@ == bundles[j].fresh_eq_t_left@
        &&& inst.eq_t2_right@ == bundles[j].fresh_eq_t_right@
        &&& m.tables.gammas@[j].val() == table_gamma::<E>(x, j)
        &&& inst.r.val() == c
        &&& inst.w1_poly.Z@ == bundles[j].running_lw.witness@
        &&& inst.t1_poly.Z@ == bundles[j].running_lw.table@
        &&& inst.ts1_poly.Z@ == bundles[j].running_lw.multiplicities@
        &&& inst.ts2_poly.Z@ == bundles[j].fresh_multiplicities@
        &&& out.nifs.comm_inv_w->Some_0@[j].log() == ck.commitment(vals(inst.inv_w2_poly.Z@), 0)
        &&& out.nifs.comm_inv_t->Some_0@[j].log() == ck.commitment(vals(inst.inv_t2_poly.Z@), 0)
        &&& forall|i: int|
            0 <= i < inst.w2_poly.Z@.len() ==> ((inst.w2_poly.Z@[i].val() + c) * (
            #[trigger] inst.inv_w2_poly.Z@[i]).val()) % p == 1
        &&& forall|i: int|
            0 <= i < inst.t2_poly.Z@.len() ==> ((inst.t2_poly.Z@[i].val() + c) * (
            #[trigger] inst.inv_t2_poly.Z@[i]).val()) % p
                == bundles[j].fresh_multiplicities@[i].val()
    } by {
        let inst = m.tables.instances@[j];
        let c = fold_r::<E>(x, j as nat);
        assert(table_kept(
            m.tables,
            m.nifs,
            x,
            bundles,
            tables,
            running_or_zeros(U1@.T_lookup, bundles.len()),
            j,
        ));
        let lw = out.lws@[j];
        assert(running_between(inst, r, lw));
        assert(inst.t1().inv.len() == inst.t2().num.len());
        assert(vals(inst.inv_w2_poly.Z@).len() == inst.inv_w2_poly.Z@.len());
        assert(vals(inst.inv_t2_poly.Z@).len() == inst.inv_t2_poly.Z@.len());
        assert(vals(inst.w2_poly.Z@).len() == inst.w2_poly.Z@.len());
        assert(vals(inst.t2_poly.Z@).len() == inst.t2_poly.Z@.len());
        assert forall|i: int| 0 <= i < inst.w2_poly.Z@.len() implies ((inst.w2_poly.Z@[i].val()
            + c) * (#[trigger] inst.inv_w2_poly.Z@[i]).val()) % p == 1 by {
            assert(vals(inst.inv_w2_poly.Z@)[i] == inst.inv_w2_poly.Z@[i].val());
            assert(vals(inst.w2_poly.Z@)[i] == inst.w2_poly.Z@[i].val());
        }
        assert forall|i: int| 0 <= i < inst.t2_poly.Z@.len() implies ((inst.t2_poly.Z@[i].val()
            + c) * (#[trigger] inst.inv_t2_poly.Z@[i]).val()) % p
            == bundles[j].fresh_multiplicities@[i].val() by {
            assert(vals(inst.inv_t2_poly.Z@)[i] == inst.inv_t2_poly.Z@[i].val());
            assert(vals(inst.t2_poly.Z@)[i] == inst.t2_poly.Z@[i].val());
            assert(inst.t2().num.len() == inst.t2().base.len());
            assert(vals(inst.ts2_poly.Z@)[i] == inst.ts2_poly.Z@[i].val());
            E::Scalar::lemma_val(inst.ts2_poly.Z@[i]);
            lemma_reduced(p, inst.ts2_poly.Z@[i].val());
        }
    }
}

/// A fold can be proved, as far as lengths go, exactly if there is a table for every bundle; each
/// bundle looks up as often as before, in a table of as many entries as before, with as many
/// multiplicities, value columns of these lengths, committed to one by one, and weights on grids
/// of these sizes, which are those of before; no vector is longer than the key; and a running
/// instance that has data on tables has it on as many.
pub proof fn law_ready_exactly<E: Engine>(
    ck: CommitmentKey<E>,
    U1: FoldedInstance<E>,
    bundles: Seq<PerTableBundle<E>>,
    tables: Seq<MultiColumnLookupTable<E>>,
)
    ensures
        fold_ready(ck, U1, bundles, tables) <==> {
            let k = bundles.len();
            &&& tables.len() >= k
            &&& forall|j: int|
                0 <= j < k ==> {
                    let b = #[trigger] bundles[j];
                    let lw = b.running_lw;
                    let t = tables[j];
                    &&& lw.witness@.len() == b.fresh_witness_address@.len()
                    &&& lw.inv_w@.len() == b.fresh_witness_address@.len()
                    &&& lw.table@.len() == t.size
                    &&& lw.multiplicities@.len() == t.size
                    &&& lw.inv_t@.len() == t.size
                    &&& b.fresh_multiplicities@.len() == t.size
                    &&& b.fresh_eq_w_left@.len() * b.fresh_eq_w_right@.len()
                        == b.fresh_witness_address@.len()
                    &&& b.fresh_eq_t_left@.len() * b.fresh_eq_t_right@.len() == t.size
                    &&& lw.eq_w_left@.len() == b.fresh_eq_w_left@.len()
                    &&& lw.eq_w_right@.len() == b.fresh_eq_w_right@.len()
                    &&& lw.eq_t_left@.len() == b.fresh_eq_t_left@.len()
                    &&& lw.eq_t_right@.len() == b.fresh_eq_t_right@.len()
                    &&& b.fresh_witness_value_columns@.len() == b.payload.comm_values@.len()
                    &&& t.columns@.len() == b.payload.comm_values@.len()
                    &&& forall|c: int|
                        0 <= c < b.payload.comm_values@.len() ==> (
                        #[trigger] b.fresh_witness_value_columns@[c])@.len()
                            == b.fresh_witness_address@.len()
                    &&& forall|c: int|
                        0 <= c < b.payload.comm_values@.len() ==> (#[trigger] t.columns@[c])@.len()
                            == t.size
                    &&& b.fresh_witness_address@.len() <= ck.ck@.len()
                    &&& t.size <= ck.ck@.len()
                }
            &&& k > 0 && U1.T_lookup is Some ==> U1.T_lookup->Some_0@.len() == k
            &&& k > 0 && U1.comm_L is Some ==> U1.comm_L->Some_0@.len() == k
            &&& k > 0 && U1.comm_ts is Some ==> U1.comm_ts->Some_0@.len() == k
        },
{
    assert forall|v: Seq<Vec<E::Scalar>>, n: nat| #[trigger] columns_fit(vecs(v), n) == (forall|
        c: int,
    |
        0 <= c < v.len() ==> (#[trigger] v[c])@.len() == n) by {
        let s = vecs(v);
        assert(s.len() == v.len());
        assert forall|c: int| 0 <= c < v.len() implies (#[trigger] s[c]).len() == v[c]@.len() by {}
        if columns_fit(s, n) {
            assert forall|c: int| 0 <= c < v.len() implies (#[trigger] v[c])@.len() == n by {
                assert(s[c].len() == n);
            }
        }
    }
    if bundles_fit(bundles, tables, ck.ck@.len()) {
        assert forall|j: int| 0 <= j < bundles.len() implies bundle_fits(
            #[trigger] bundles[j],
            tables[j],
            ck.ck@.len(),
        ) by {}
    }
}

/// The folded commitments of a table are, at the last challenge, the running ones times `1 - r` plus
/// those of the bundle times `r`: for the lookups the commitment to the addresses plus, over all
/// value columns, the commitment to the column times the power of the challenge of the table that
/// the column's place names; for the multiplicities the commitment to them.
pub proof fn law_points_folded<E: Engine>(
    out: FoldOutput<E>,
    m: FoldMessage<E>,
    bundles: Seq<PerTableBundle<E>>,
    L: Seq<int>,
    ts: Seq<int>,
    r: int,
    j: int,
)
    requires
        points_follow(out, m, bundles, L, ts, r),
        0 <= j < bundles.len(),
    ensures
        ({
            let p = E::Scalar::modulus();
            let b = bundles[j].payload;
            let gamma = m.tables.gammas@[j].val();
            &&& out.nifs.comm_L_fold_per_table is Some
            &&& out.nifs.comm_ts_fold_per_table is Some
            &&& out.nifs.comm_L_fold_per_table->Some_0@.len() == bundles.len()
            &&& out.nifs.comm_ts_fold_per_table->Some_0@.len() == bundles.len()
            &&& out.nifs.comm_L_fold_per_table->Some_0@[j].log() == ((1 - r) * L[j] + r * (
            b.comm_L.log() + sum(
                b.comm_values@.len(),
                |c: int| pow(gamma, (c + 1) as nat) * b.comm_values@[c].log(),
            ))) % p
            &&& out.nifs.comm_ts_fold_per_table->Some_0@[j].log() == ((1 - r) * ts[j] + r
                * b.comm_ts.log()) % p
        }),
{
    let p = E::Scalar::modulus();
    E::Scalar::lemma_modulus();
    let b = bundles[j].payload;
    let gamma = m.tables.gammas@[j].val();
    let values = logs::<E>(b.comm_values@);
    let c = combined_point(p, b.comm_L.log(), values, gamma);
    let f = |c: int| pow(gamma, (c + 1) as nat) * b.comm_values@[c].log();
    let g = |c: int| pow(gamma, (c + 1) as nat) * values[c];
    law_combined_point_sum(p, b.comm_L.log(), values, gamma);
    lemma_sum_same(values.len(), f, g);
    let d = b.comm_L.log() + sum(values.len(), f);
    assert(out.nifs.comm_L_fold_per_table->Some_0@[j].log() == line(p, L[j], c, r));
    assert(out.nifs.comm_ts_fold_per_table->Some_0@[j].log() == line(
        p,
        ts[j],
        b.comm_ts.log(),
        r,
    ));
    law_line_mixes(p, L[j], c, r);
    law_line_mixes(p, ts[j], b.comm_ts.log(), r);
    lemma_cong_mul(p, r, c, r, d);
    lemma_cong_add(p, (1 - r) * L[j], r * c, (1 - r) * L[j], r * d);
}

} // verus!
