//! What holds of the library as a whole, on concrete values.
#![allow(non_snake_case)]

use neutron::commitment::CommitmentKey;
use neutron::compressed_snark::sigma::prove_sigma_E2_equality_with;
use neutron::compressed_snark::split::split_E_commitments_with;
use neutron::compressed_snark::{verify_sigma_E2_equality, BridgedNeutronInstance};
use neutron::engine::{Group, NUM_HASH_BITS, RO2};
use neutron::linear::scalars_between;
use neutron::lookup_sumcheck::batch_invert_plus_r;
use neutron::public_params::random_key;
use neutron::random::SeededRng;
use neutron::reference::{Exponent, ReferenceEngine};
use neutron::relation::FoldedInstance;
use neutron::structure::{FoldedWitness, R1CSShape, Structure};
use neutron::transcript::Transcript;
use neutron::{PrimeField, M31};

type E = ReferenceEngine<M31>;
type Point = Exponent<M31>;

fn n(x: u64) -> M31 {
    M31::from_u64(x)
}

fn key(size: usize) -> CommitmentKey<E> {
    random_key(size).expect("the operating system provides random numbers")
}

/// Four constraints `x_i * x_i = x_{i + 1}` on five numbers and one public value.
fn structure() -> Structure<E> {
    let one = M31::one();
    let a: Vec<(usize, usize, M31)> = (0..4).map(|i| (i, i, one)).collect();
    let c: Vec<(usize, usize, M31)> = (0..4).map(|i| (i, i + 1, one)).collect();
    let shape = R1CSShape::<E>::new(4, 5, 1, a.clone(), a, c).expect("the entries fit");
    Structure::new(&shape)
}

#[test]
fn lookups_that_are_right_have_inverses_that_add_up() {
    let table = [n(10), n(20), n(30)];
    let positions = [2usize, 0, 2, 1, 2];
    let witness: Vec<M31> = positions.iter().map(|j| table[*j]).collect();
    let counts = [n(1), n(1), n(3)];
    let r = n(123456);
    let total = |v: &[M31]| v.iter().fold(M31::zero(), |s, x| s.plus(*x));
    let inv_w = batch_invert_plus_r(&witness, &r).unwrap();
    let inv_t: Vec<M31> = batch_invert_plus_r(&table, &r)
        .unwrap()
        .iter()
        .zip(counts.iter())
        .map(|(i, c)| i.times(*c))
        .collect();
    assert_eq!(total(&inv_w), total(&inv_t));
    // One lookup that is not in the table.
    let mut wrong = witness.clone();
    wrong[0] = n(31);
    assert_ne!(total(&batch_invert_plus_r(&wrong, &r).unwrap()), total(&inv_t));
}

#[test]
fn the_commitment_to_a_point_of_a_line_is_a_point_of_the_line() {
    let ck = key(3);
    let (v, w) = (vec![n(1), n(2), n(3)], vec![n(10), n(0), n(7)]);
    let (r, s, x) = (n(4), n(5), n(6));
    let between = scalars_between(&v, &w, x);
    assert_eq!(between, vec![n(55), n(2147483637), n(27)]);
    let blinding = r.plus(x.times(s.minus(r)));
    let (a, b) = (ck.commit(&v, &r), ck.commit(&w, &s));
    let line = a.plus(b.plus(a.scale(M31::zero().minus(M31::one()))).scale(x));
    assert_eq!(ck.commit(&between, &blinding), line);
}

#[test]
fn zeros_at_the_end_keep_a_commitment() {
    let ck = key(6);
    let v = [n(3), n(1), n(4)];
    let padded = [n(3), n(1), n(4), n(0), n(0), n(0)];
    assert_eq!(ck.commit(&v, &n(2)), ck.commit(&padded, &n(2)));
}

#[test]
fn the_claim_is_no_part_of_the_bytes_of_an_instance() {
    let g = Point::base();
    let mut x = BridgedNeutronInstance::<E> {
        comm_W: g,
        comm_E1: g.plus(g),
        comm_E2_pcs: g,
        u: n(1),
        X: vec![n(2), n(3)],
        T: n(4),
    };
    let bytes = x.to_transcript_bytes();
    x.T = n(5);
    assert_eq!(x.to_transcript_bytes(), bytes);
    x.u = n(9);
    assert_ne!(x.to_transcript_bytes(), bytes);
}

#[test]
fn whatever_is_changed_of_an_instance_is_hashed_differently() {
    let hash = |U: &FoldedInstance<E>| {
        let mut ro = RO2::<E>::new();
        U.absorb_in_ro2(&mut ro);
        ro.squeeze(NUM_HASH_BITS)
    };
    let g = Point::base();
    let start = FoldedInstance::<E>::default_with_lookup_k(1, 2);
    let changes: [fn(&mut FoldedInstance<E>); 8] = [
        |U| U.comm_W = Point::base(),
        |U| U.comm_E = Point::base(),
        |U| U.T = M31::one(),
        |U| U.u = M31::one(),
        |U| U.X[0] = M31::one(),
        |U| U.T_lookup.as_mut().unwrap()[1] = M31::one(),
        |U| U.comm_L.as_mut().unwrap()[0] = Point::base(),
        |U| U.comm_ts.as_mut().unwrap()[1] = Point::base(),
    ];
    assert_eq!(hash(&start), hash(&start.duplicate()));
    let mut seen = vec![hash(&start)];
    for change in changes {
        let mut U = start.duplicate();
        change(&mut U);
        seen.push(hash(&U));
    }
    for i in 0..seen.len() {
        for j in 0..i {
            assert_ne!(seen[i], seen[j]);
        }
    }
    // The commitments to inverses are no part of the hash.
    let mut U = start.duplicate();
    U.comm_inv_w = Some(vec![g]);
    assert_eq!(hash(&U), seen[0]);
}

#[test]
fn two_answers_to_one_commitment_give_away_the_vector() {
    let structure = structure();
    let size = structure.left + structure.right;
    let ck = key(size);
    let mut rng = SeededRng::new([7u8; 32]);
    let W = FoldedWitness::<E> {
        W: vec![],
        r_W: M31::zero(),
        E: rng.scalars(size),
        r_E: rng.scalar(),
    };
    let s = split_E_commitments_with(&ck, &W, &structure, rng.scalar(), rng.scalar());
    let comm_E = ck.commit(&W.E, &W.r_E);
    assert_eq!(s.comm_E1.plus(s.comm_E2_bind), comm_E);
    let (_, E2) = W.E.split_at(structure.left);
    let rho: Vec<M31> = rng.scalars(structure.right);
    let (sigma_bind, sigma_pcs) = (n(11), n(13));

    // The same masks in two transcripts.
    let mut proofs = vec![];
    for label in ["first", "second"] {
        let mut transcript = Transcript::<E>::new(label);
        let proof = prove_sigma_E2_equality_with(
            &ck,
            &structure,
            E2,
            &s.r_E2_bind,
            &s.r_E2_pcs,
            &s.comm_E1,
            &s.comm_E2_bind,
            &s.comm_E2_pcs,
            &comm_E,
            &mut transcript,
            &rho,
            sigma_bind,
            sigma_pcs,
        )
        .expect("the transcript has rounds left");
        let mut transcript = Transcript::<E>::new(label);
        let verdict = verify_sigma_E2_equality(
            &ck,
            &structure,
            &s.comm_E1,
            &s.comm_E2_bind,
            &s.comm_E2_pcs,
            &comm_E,
            &proof,
            &mut transcript,
        );
        assert!(verdict.is_ok());
        proofs.push(proof);
    }
    let (p, q) = (&proofs[0], &proofs[1]);
    assert_eq!((p.T_bind, p.T_pcs), (q.T_bind, q.T_pcs));
    let challenge = |z_r: M31| z_r.minus(sigma_bind).times(s.r_E2_bind.invert().unwrap());
    let inv = challenge(p.z_r_bind).minus(challenge(q.z_r_bind)).invert().unwrap();
    let extracted: Vec<M31> =
        p.z.iter().zip(q.z.iter()).map(|(a, b)| a.minus(*b).times(inv)).collect();
    assert_eq!(extracted, E2);
    let r_bind = p.z_r_bind.minus(q.z_r_bind).times(inv);
    let r_pcs = p.z_r_pcs.minus(q.z_r_pcs).times(inv);
    assert_eq!((r_bind, r_pcs), (s.r_E2_bind, s.r_E2_pcs));
    assert_eq!(ck.commit(&extracted, &r_pcs), s.comm_E2_pcs);
}

#[test]
fn a_blinding_can_be_taken_away() {
    let ck = key(2);
    let v = [n(8), n(9)];
    let dk = ck.derand_key();
    assert_eq!(dk.derandomize(&ck.commit(&v, &n(5)), &n(5)), ck.commit(&v, &n(0)));
}
