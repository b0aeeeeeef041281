//! BLAKE3 content digests, as computed by the `blake3` crate.

use vstd::prelude::*;

verus! {

/// The 32-byte BLAKE3 digest of `input`, as `blake3::hash` computes it.
pub uninterp spec fn blake3_digest(input: Seq<u8>) -> Seq<u8>;

/// Calls `blake3::hash` and returns the 32 bytes of the resulting `Hash`.
///
/// Trusted: the digest is named, not stated; the contract claims only that
/// the result is `blake3_digest` of the input bytes, i.e. a function of the
/// input alone.
#[verifier::external_body]
pub(crate) fn blake3_hash(input: &[u8]) -> (r: [u8; 32])
    ensures
        r@ == blake3_digest(input@),
{
    *blake3::hash(input).as_bytes()
}

/// Byte-wise equality of two digests.
pub fn digest_eq(a: &[u8; 32], b: &[u8; 32]) -> (r: bool)
    ensures
        r == (a@ == b@),
{
    let mut i: usize = 0;
    while i < 32
        invariant
            0 <= i <= 32,
            a@.len() == 32,
            b@.len() == 32,
            forall|j: int| 0 <= j < i ==> a@[j] == b@[j],
        decreases 32 - i,
    {
        if a[i] != b[i] {
            assert(a@[i as int] != b@[i as int]);
            return false;
        }
        i += 1;
    }
    assert(a@ =~= b@);
    true
}

} // verus!
