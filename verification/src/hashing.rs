//! BLAKE2b-128 hashing, as used for bridge message digests.

use vstd::prelude::*;

verus! {

/// The 16-byte BLAKE2b digest (empty key) of a byte string. The digest is a
/// function of the input bytes alone; it is given by this name rather than by
/// its defining equations.
pub uninterp spec fn blake2b_128_of(data: Seq<u8>) -> Seq<u8>;

/// Relies on `blake2_rfc::blake2b::blake2b`: with digest length 16 and an
/// empty key it computes the 16-byte BLAKE2b digest of `data`, a function of
/// `data` alone, and `Blake2bResult::as_bytes` exposes exactly those 16 bytes.
#[verifier::external_body]
fn blake2b_128_write(data: &[u8], dest: &mut [u8; 16])
    ensures
        final(dest)@ == blake2b_128_of(data@),
{
    dest.copy_from_slice(blake2_rfc::blake2b::blake2b(16, &[], data).as_bytes());
}

/// Do a Blake2 128-bit hash and place result in `dest`.
pub fn blake2_128_into(data: &[u8], dest: &mut [u8; 16])
    ensures
        final(dest)@ == blake2b_128_of(data@),
{
    blake2b_128_write(data, dest);
}

/// Do a Blake2 128-bit hash and return result.
pub fn blake2_128(data: &[u8]) -> (r: [u8; 16])
    ensures
        r@ == blake2b_128_of(data@),
{
    let mut r: [u8; 16] = [0; 16];
    blake2_128_into(data, &mut r);
    r
}

} // verus!
