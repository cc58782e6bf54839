//! The CRC-32 accumulator that entry payloads are checked with. The
//! computation itself is crc32fast's; this module names its result and
//! models the accumulator by the bytes fed into it.

use vstd::prelude::*;

verus! {

/// The CRC-32 value of a byte sequence, as crc32fast computes it.
pub uninterp spec fn crc32_of(s: Seq<u8>) -> u32;

/// The bytes an in-progress accumulator has been fed so far, in order.
pub uninterp spec fn hasher_fed(h: crc32fast::Hasher) -> Seq<u8>;

#[verifier::external_type_specification]
#[verifier::external_body]
pub struct ExHasher(crc32fast::Hasher);

/// Relies on crc32fast::Hasher::new: a fresh accumulator has been fed
/// nothing.
#[verifier::external_body]
pub fn hasher_new() -> (h: crc32fast::Hasher)
    ensures
        hasher_fed(h) == Seq::<u8>::empty(),
{
    crc32fast::Hasher::new()
}

/// Relies on crc32fast::Hasher::update: feeding a buffer appends its bytes
/// to what the accumulator has been fed.
#[verifier::external_body]
pub fn hasher_update(h: &mut crc32fast::Hasher, buf: &[u8])
    ensures
        hasher_fed(*final(h)) == hasher_fed(*old(h)) + buf@,
{
    h.update(buf)
}

/// Relies on crc32fast::Hasher::finalize: the result is the CRC-32 of the
/// concatenation of everything fed, and depends on those bytes alone.
#[verifier::external_body]
pub fn hasher_finalize(h: crc32fast::Hasher) -> (r: u32)
    ensures
        r == crc32_of(hasher_fed(h)),
{
    h.finalize()
}

} // verus!
