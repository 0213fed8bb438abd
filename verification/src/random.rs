//! Random scalars, from the operating system and from a seed.

use crate::errors::NovaError;
use crate::field::{lemma_cong_add, lemma_cong_mul, lemma_reduced, lemma_residue, PrimeField};
use crate::poly::vals;
use crate::sums::{lemma_sum_scale, sum};
use rand_chacha::ChaCha20Rng;
use rand_core::{OsRng, RngCore, SeedableRng};
use vstd::arithmetic::power::pow;
use vstd::prelude::*;

verus! {

/// The error of a random number generator, which is opaque.
#[verifier::external_type_specification]
#[verifier::external_body]
pub struct ExRngError(rand_core::Error);

/// A word from the operating system, with `OsRng::try_fill_bytes`. Nothing is claimed of it: the
/// word is a matter of chance, and the operating system may fail to provide one.
#[verifier::external_body]
fn os_word() -> (r: Result<u64, rand_core::Error>) {
    let mut bytes = [0u8; 8];
    OsRng.try_fill_bytes(&mut bytes)?;
    Ok(u64::from_le_bytes(bytes))
}

/// What ChaCha with twenty rounds yields for a seed as two consecutive words of its stream,
/// counted from the given word.
pub uninterp spec fn chacha20_draw(seed: Seq<u8>, word: u64) -> u64;

/// Two words of a stream as one number, with `ChaCha20Rng::from_seed`, `ChaCha20Rng::set_word_pos`
/// and `ChaCha20Rng::next_u64`. Claimed of them: the number is determined by the seed and the
/// position in the stream.
#[verifier::external_body]
fn chacha20_next(seed: [u8; 32], word: u64) -> (r: u64)
    ensures
        r == chacha20_draw(seed@, word),
{
    let mut rng = ChaCha20Rng::from_seed(seed);
    rng.set_word_pos(word as u128);
    rng.next_u64()
}

/// How many draws make up a scalar.
pub const DRAWS_PER_SCALAR: usize = 8;

/// Draws as the digits of a number, the first one leading.
pub open spec fn wide(d: Seq<u64>) -> int
    decreases d.len(),
{
    if d.len() == 0 {
        0
    } else {
        wide(d.drop_last()) * 0x1_0000_0000_0000_0000 + d.last()
    }
}

/// The scalar that draws stand for: the number that they are the digits of, reduced.
pub fn scalar_from_draws<F: PrimeField>(d: &Vec<u64>) -> (r: F)
    ensures
        r.val() == wide(d@) % F::modulus(),
{
    let ghost p = F::modulus();
    let half = F::from_u64(0x1_0000_0000);
    let base = half.times(half);
    let n: usize = d.len();
    let mut acc = F::zero();
    let mut i: usize = 0;
    proof {
        F::lemma_modulus();
        lemma_reduced(p, 0);
        assert(d@.take(0) =~= Seq::<u64>::empty());
        let h = 0x1_0000_0000int;
        lemma_residue(p, h);
        lemma_cong_mul(p, half.val(), half.val(), h, h);
        assert(h * h == 0x1_0000_0000_0000_0000) by (nonlinear_arith)
            requires
                h == 0x1_0000_0000,
        ;
        lemma_residue(p, half.val() * half.val());
    }
    while i < n
        invariant
            i <= n,
            n == d@.len(),
            p == F::modulus(),
            p > 0,
            base.val() % p == 0x1_0000_0000_0000_0000int % p,
            acc.val() == wide(d@.take(i as int)) % p,
        decreases n - i,
    {
        let ghost before = acc.val();
        let shifted = acc.times(base);
        let digit = F::from_u64(d[i]);
        acc = shifted.plus(digit);
        proof {
            let w = wide(d@.take(i as int));
            let b = 0x1_0000_0000_0000_0000int;
            assert(d@.take(i as int + 1).drop_last() =~= d@.take(i as int));
            lemma_residue(p, w);
            lemma_cong_mul(p, before, base.val(), w, b);
            lemma_residue(p, before * base.val());
            lemma_residue(p, d@[i as int] as int);
            lemma_cong_add(p, shifted.val(), digit.val(), w * b, d@[i as int] as int);
        }
        i = i + 1;
    }
    proof {
        assert(d@.take(n as int) =~= d@);
    }
    acc
}

/// The scalar stands for as many draws as make up a scalar.
pub open spec fn drawn<F: PrimeField>(x: F) -> bool {
    exists|d: Seq<u64>|
        d.len() == DRAWS_PER_SCALAR && x.val() == #[trigger] wide(d) % F::modulus()
}

/// A random scalar from the operating system: words from it are the digits of a number, which is
/// reduced. Which words they are is a matter of chance.
pub fn random_scalar<F: PrimeField>() -> (r: Result<F, NovaError>)
    ensures
        r is Err ==> r == Err::<F, NovaError>(NovaError::RandomnessUnavailable),
        r is Ok ==> drawn(r->Ok_0),
{
    let mut d: Vec<u64> = Vec::new();
    let mut i: usize = 0;
    while i < DRAWS_PER_SCALAR
        invariant
            i <= DRAWS_PER_SCALAR,
            d@.len() == i,
        decreases DRAWS_PER_SCALAR - i,
    {
        match os_word() {
            Ok(x) => d.push(x),
            Err(_) => {
                return Err(NovaError::RandomnessUnavailable);
            },
        }
        i = i + 1;
    }
    let x: F = scalar_from_draws(&d);
    assert(drawn(x)) by {
        assert(x.val() == wide(d@) % F::modulus());
    }
    Ok(x)
}

/// Random scalars from the operating system.
pub fn random_scalars<F: PrimeField>(n: usize) -> (r: Result<Vec<F>, NovaError>)
    ensures
        r is Err ==> r == Err::<Vec<F>, NovaError>(NovaError::RandomnessUnavailable),
        r is Ok ==> r->Ok_0@.len() == n,
        r is Ok ==> forall|i: int| 0 <= i < n ==> drawn(#[trigger] r->Ok_0@[i]),
{
    let mut v: Vec<F> = Vec::new();
    let mut i: usize = 0;
    while i < n
        invariant
            i <= n,
            v@.len() == i,
            forall|j: int| 0 <= j < i ==> drawn(#[trigger] v@[j]),
        decreases n - i,
    {
        match random_scalar::<F>() {
            Ok(x) => v.push(x),
            Err(_) => {
                return Err(NovaError::RandomnessUnavailable);
            },
        }
        i = i + 1;
    }
    Ok(v)
}

/// A stream of numbers that a seed determines.
pub struct SeededRng {
    pub seed: [u8; 32],
    /// The word of the stream that comes next.
    pub word: u64,
}

/// The word after the two that a draw takes up.
pub open spec fn next_word(word: u64) -> u64 {
    if word < 0xffff_ffff_ffff_fffe {
        (word + 2) as u64
    } else {
        (word - 0xffff_ffff_ffff_fffe) as u64
    }
}

/// The word after a number of draws.
pub open spec fn word_after(word: u64, n: nat) -> u64
    decreases n,
{
    if n == 0 {
        word
    } else {
        next_word(word_after(word, (n - 1) as nat))
    }
}

/// The draws of a stream from a word on.
pub open spec fn seeded_draws(seed: Seq<u8>, word: u64, n: nat) -> Seq<u64> {
    Seq::new(n, |i: int| chacha20_draw(seed, word_after(word, i as nat)))
}

/// The scalar that a stream yields from a word on.
pub open spec fn seeded_scalar<F: PrimeField>(seed: Seq<u8>, word: u64) -> int {
    wide(seeded_draws(seed, word, DRAWS_PER_SCALAR as nat)) % F::modulus()
}

/// The scalars that a stream yields from a word on.
pub open spec fn seeded_scalars<F: PrimeField>(seed: Seq<u8>, word: u64, n: nat) -> Seq<int> {
    Seq::new(n, |i: int| seeded_scalar::<F>(seed, scalar_word(word, i as nat)))
}

/// The word after a number of scalars.
pub open spec fn scalar_word(word: u64, n: nat) -> u64
    decreases n,
{
    if n == 0 {
        word
    } else {
        word_after(scalar_word(word, (n - 1) as nat), DRAWS_PER_SCALAR as nat)
    }
}

impl SeededRng {
    /// The stream of a seed.
    pub fn new(seed: [u8; 32]) -> (r: Self)
        ensures
            r.seed == seed,
            r.word == 0,
    {
        SeededRng { seed, word: 0 }
    }

    /// The next number of the stream.
    pub fn draw(&mut self) -> (r: u64)
        ensures
            r == chacha20_draw(old(self).seed@, old(self).word),
            final(self).seed == old(self).seed,
            final(self).word == next_word(old(self).word),
    {
        let r: u64 = chacha20_next(self.seed, self.word);
        if self.word < 0xffff_ffff_ffff_fffe {
            self.word = self.word + 2;
        } else {
            self.word = self.word - 0xffff_ffff_ffff_fffe;
        }
        r
    }

    /// The next scalar of the stream.
    pub fn scalar<F: PrimeField>(&mut self) -> (r: F)
        ensures
            r.val() == seeded_scalar::<F>(old(self).seed@, old(self).word),
            final(self).seed == old(self).seed,
            final(self).word == word_after(old(self).word, DRAWS_PER_SCALAR as nat),
    {
        let ghost want = seeded_draws(self.seed@, self.word, DRAWS_PER_SCALAR as nat);
        let mut d: Vec<u64> = Vec::new();
        let mut i: usize = 0;
        while i < DRAWS_PER_SCALAR
            invariant
                i <= DRAWS_PER_SCALAR,
                d@.len() == i,
                self.seed == old(self).seed,
                self.word == word_after(old(self).word, i as nat),
                want == seeded_draws(old(self).seed@, old(self).word, DRAWS_PER_SCALAR as nat),
                forall|j: int| 0 <= j < i ==> #[trigger] d@[j] == want[j],
            decreases DRAWS_PER_SCALAR - i,
        {
            let x: u64 = self.draw();
            d.push(x);
            i = i + 1;
        }
        proof {
            assert(d@ =~= want);
        }
        scalar_from_draws(&d)
    }

    /// The next scalars of the stream.
    pub fn scalars<F: PrimeField>(&mut self, n: usize) -> (r: Vec<F>)
        ensures
            vals(r@) == seeded_scalars::<F>(old(self).seed@, old(self).word, n as nat),
            r@.len() == n,
            final(self).seed == old(self).seed,
            final(self).word == scalar_word(old(self).word, n as nat),
    {
        let ghost want = seeded_scalars::<F>(self.seed@, self.word, n as nat);
        let mut v: Vec<F> = Vec::new();
        let mut i: usize = 0;
        while i < n
            invariant
                i <= n,
                v@.len() == i,
                self.seed == old(self).seed,
                self.word == scalar_word(old(self).word, i as nat),
                want == seeded_scalars::<F>(old(self).seed@, old(self).word, n as nat),
                forall|j: int| 0 <= j < i ==> (#[trigger] v@[j]).val() == want[j],
            decreases n - i,
        {
            let x = self.scalar::<F>();
            v.push(x);
            i = i + 1;
        }
        proof {
            assert(vals(v@) =~= want);
        }
        v
    }
}

/// Draws stand for the sum of every draw times the power of `2^64` that its place names, the last
/// one counting singly.
pub proof fn law_wide_sum(d: Seq<u64>)
    ensures
        wide(d) == sum(
            d.len(),
            |i: int| d[i] * pow(0x1_0000_0000_0000_0000, (d.len() - 1 - i) as nat),
        ),
    decreases d.len(),
{
    if d.len() > 0 {
        let b = 0x1_0000_0000_0000_0000int;
        let t = d.drop_last();
        let n = t.len();
        law_wide_sum(t);
        let f = |i: int| d[i] * pow(0x1_0000_0000_0000_0000, (d.len() - 1 - i) as nat);
        let g = |i: int| t[i] * pow(0x1_0000_0000_0000_0000, (t.len() - 1 - i) as nat);
        assert forall|i: int| 0 <= i < n implies #[trigger] f(i) == g(i) * b by {
            reveal(pow);
            let k = pow(b, (n - 1 - i) as nat);
            assert(pow(b, (n - i) as nat) == b * k);
            let x = d[i] as int;
            assert(x * (b * k) == (x * k) * b) by (nonlinear_arith);
        }
        lemma_sum_scale(n, f, g, b);
        reveal(pow);
        assert(f(n as int) == d.last());
    }
}

/// A draw takes up two words of the stream, and the words are counted modulo `2^64`.
pub proof fn law_words_counted(word: u64, n: nat)
    ensures
        word_after(word, n) == (word + 2 * n) % 0x1_0000_0000_0000_0000,
    decreases n,
{
    if n > 0 {
        law_words_counted(word, (n - 1) as nat);
    }
}

/// A scalar takes up sixteen words of the stream.
pub proof fn law_scalar_words_counted(word: u64, n: nat)
    ensures
        scalar_word(word, n) == (word + 16 * n) % 0x1_0000_0000_0000_0000,
    decreases n,
{
    if n > 0 {
        law_scalar_words_counted(word, (n - 1) as nat);
        law_words_counted(scalar_word(word, (n - 1) as nat), 8);
    }
}

/// The scalar at place `i` of a stream is the residue of the number with the eight draws from word
/// `16 i` on as digits.
pub proof fn law_seeded_scalar<F: PrimeField>(seed: Seq<u8>, word: u64, n: nat, i: int)
    requires
        0 <= i < n,
    ensures
        seeded_scalars::<F>(seed, word, n).len() == n,
        seeded_scalars::<F>(seed, word, n)[i] == wide(
            Seq::new(
                8,
                |k: int|
                    chacha20_draw(
                        seed,
                        ((word + 16 * i + 2 * k) % 0x1_0000_0000_0000_0000) as u64,
                    ),
            ),
        ) % F::modulus(),
{
    law_scalar_words_counted(word, i as nat);
    let start = scalar_word(word, i as nat);
    assert forall|k: int| 0 <= k < 8 implies word_after(start, k as nat) == #[trigger] ((word + 16
        * i + 2 * k) % 0x1_0000_0000_0000_0000) by {
        law_words_counted(start, k as nat);
    }
    assert(seeded_draws(seed, start, 8) =~= Seq::new(
        8,
        |k: int|
            chacha20_draw(seed, ((word + 16 * i + 2 * k) % 0x1_0000_0000_0000_0000) as u64),
    ));
}

} // verus!
