//! A best-effort seed for generators nobody seeds by hand.

use vstd::prelude::*;

verus! {

/// Relies on `std::time::Instant::now` hashed through
/// `std::collections::hash_map::DefaultHasher`: a 64-bit digest of a
/// high-resolution clock sample. The sample depends on the clock, so
/// nothing is promised of the result; two uncoordinated calls differ
/// with high probability but are not guaranteed unique.
#[verifier::external_body]
fn clock_hash() -> u64 {
    let mut hasher = std::collections::hash_map::DefaultHasher::new();
    std::hash::Hash::hash(&std::time::Instant::now(), &mut hasher);
    std::hash::Hasher::finish(&hasher)
}

/// A clock-derived seed, made odd by a final shift-and-or.
pub fn generate_entropy() -> (r: u64)
    ensures
        r % 2 == 1,
{
    let hash = clock_hash();
    proof {
        assert(((hash << 1) | 1) % 2 == 1) by (bit_vector);
    }
    (hash << 1) | 1
}

} // verus!
