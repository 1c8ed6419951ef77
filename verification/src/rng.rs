//! Deterministic random words for procedural seeding.  The one outside
//! call is behind `chacha_words`; everything derived from the words is
//! ordinary verified code.

use vstd::prelude::*;

verus! {

/// The first `count` 64-bit words of the ChaCha8 keystream for a given
/// seed.  The stream is a pure function of `(seed, count)`: the same
/// arguments give the same words in every process and on every machine.
pub uninterp spec fn chacha_stream(seed: u64, count: int) -> Seq<u64>;

/// Relies on rand_chacha's `ChaCha8Rng` seeded through rand_core's
/// `SeedableRng::seed_from_u64` and read through `RngCore::next_u64`:
/// both are documented as deterministic, so the words drawn are a
/// function of the seed alone.
#[verifier::external_body]
pub(crate) fn chacha_words(seed: u64, count: usize) -> (r: Vec<u64>)
    ensures
        r@ == chacha_stream(seed, count as int),
        r@.len() == count,
{
    let mut rng = <rand_chacha::ChaCha8Rng as rand::SeedableRng>::seed_from_u64(seed);
    (0..count).map(|_| rand::RngCore::next_u64(&mut rng)).collect()
}

/// A raw word folded into the half-open interval `[lo, hi)`.
pub open spec fn ranged(word: u64, lo: int, hi: int) -> int
    recommends
        lo < hi,
{
    lo + (word as int) % (hi - lo)
}

/// A folded word lies inside its interval, whatever the word was.
pub proof fn lemma_ranged_bounds(word: u64, lo: int, hi: int)
    requires
        lo < hi,
    ensures
        lo <= ranged(word, lo, hi) < hi,
{
    vstd::arithmetic::div_mod::lemma_mod_bound(word as int, hi - lo);
}

/// Folds a random word into `[lo, hi)` by a modulus: deterministic, and
/// near-uniform for spans far below the word range.
pub fn word_in_range(word: u64, lo: i64, hi: i64) -> (r: i64)
    requires
        lo < hi,
        hi - lo <= 0x7fff_ffff_ffff_ffff,
    ensures
        r == ranged(word, lo as int, hi as int),
        lo <= r < hi,
{
    let span: u64 = (hi - lo) as u64;
    let m: u64 = word % span;
    lo + (m as i64)
}

} // verus!
