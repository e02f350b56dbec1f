//! The seeded source of random draws: a ChaCha20 stream, keyed once per
//! distribution from a caller-supplied seed.
//!
//! Nothing here is proved. The generator is the `rand_chacha` crate's and the
//! range sampling is the `rand` crate's; this module only states that both are
//! functions of their inputs, and that a draw lies below its bound.

use rand::Rng;
use rand::SeedableRng;
use rand_chacha::ChaCha20Rng;
use vstd::prelude::*;

verus! {

/// `rand_chacha::ChaCha20Rng`, carried through the draws of one distribution.
#[verifier::external_type_specification]
#[verifier::external_body]
pub struct ExChaCha20Rng(ChaCha20Rng);

/// The 32-bit words that a generator has yet to yield: one period of its
/// output, read from its current position.
pub uninterp spec fn pending_words(rng: ChaCha20Rng) -> Seq<u32>;

/// The output of `ChaCha20Rng::seed_from_u64(seed)`, read from the start.
pub uninterp spec fn seeded_words(seed: u64) -> Seq<u32>;

/// What `Rng::gen_range(0..bound)` makes of a stream of words: the value
/// sampled, and the words left over afterwards.
pub uninterp spec fn range_sample(words: Seq<u32>, bound: u64) -> (u64, Seq<u32>);

/// Calls `ChaCha20Rng::seed_from_u64`. The generator it returns is determined
/// by the seed alone: equal seeds give equal streams.
#[verifier::external_body]
pub(crate) fn seeded_rng(seed: u64) -> (rng: ChaCha20Rng)
    ensures
        pending_words(rng) == seeded_words(seed),
{
    ChaCha20Rng::seed_from_u64(seed)
}

/// Calls `Rng::gen_range(0..bound)` on the generator. The value is below
/// `bound`; it and the generator's state afterwards are determined by the
/// generator's state before and by `bound`. The call panics on an empty range,
/// which `bound > 0` rules out.
#[verifier::external_body]
pub(crate) fn sample_below(rng: &mut ChaCha20Rng, bound: u64) -> (index: u64)
    requires
        bound > 0,
    ensures
        (index, pending_words(*final(rng))) == range_sample(pending_words(*old(rng)), bound),
        index < bound,
{
    rng.gen_range(0..bound)
}

} // verus!
