//! The calls into outside crates: SHA-256, the operating system's random
//! source, and the seeded ChaCha8 shuffle.
use vstd::prelude::*;
use rand::RngCore;
use rand::SeedableRng;
use rand::seq::SliceRandom;
use sha2::Digest;

verus! {

/// The SHA-256 digest of `data`, as the sha2 crate computes it.
pub uninterp spec fn sha256(data: Seq<u8>) -> Seq<u8>;

/// The order in which `rand`'s `SliceRandom::shuffle` leaves `items` when it
/// draws from a `rand_chacha::ChaCha8Rng` created by `from_seed(seed)`.
pub uninterp spec fn chacha8_shuffle(seed: Seq<u8>, items: Seq<u8>) -> Seq<u8>;

/// Calls `sha2::Sha256::digest` on the sixteen bytes.
/// Claimed: the 32 bytes returned are the digest that `sha256` names.
#[verifier::external_body]
pub(crate) fn sha256_digest(data: &[u8; 16]) -> (digest: [u8; 32])
    ensures
        digest@ == sha256(data@),
{
    sha2::Sha256::digest(data).into()
}

/// Fills sixteen bytes from `rand::rng()` (the thread-local generator seeded
/// by the operating system) with `RngCore::fill_bytes`.
/// Nothing is claimed of the bytes: they are random.
#[verifier::external_body]
pub(crate) fn random_seed() -> (seed: [u8; 16]) {
    let mut seed = [0u8; 16];
    rand::rng().fill_bytes(&mut seed);
    seed
}

/// Creates `rand_chacha::ChaCha8Rng::from_seed(seed)` and shuffles `items`
/// with `rand::seq::SliceRandom::shuffle` drawing from it.
/// Claimed: the result is the order that `chacha8_shuffle` names, a function
/// of the seed and the items alone, and it is a permutation of the items
/// (the shuffle only swaps elements).
#[verifier::external_body]
pub(crate) fn shuffle_with_seed(items: Vec<u8>, seed: [u8; 32]) -> (shuffled: Vec<u8>)
    ensures
        shuffled@ == chacha8_shuffle(seed@, items@),
        shuffled@.to_multiset() == items@.to_multiset(),
{
    let mut rng = rand_chacha::ChaCha8Rng::from_seed(seed);
    let mut shuffled = items;
    shuffled.shuffle(&mut rng);
    shuffled
}

} // verus!
