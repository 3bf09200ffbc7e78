//! SHA-384 digests.
use vstd::prelude::*;

use crate::error::PolicyError;

verus! {

/// The length of a SHA-384 digest in bytes.
pub const SHA384_DIGEST_SIZE: usize = 48;

/// The SHA-384 digest of some bytes.
pub uninterp spec fn sha384(data: Seq<u8>) -> Seq<u8>;

/// Whether SHA-384 is computed of so many bytes: their number of bits fits in 64 bits.
pub open spec fn digestible(data: Seq<u8>) -> bool {
    data.len() * 8 <= u64::MAX
}

/// Calls `ring::digest::digest` with `ring::digest::SHA384`. Claimed: the result is
/// what `sha384` names for these bytes, and has the length of a SHA-384 digest. The
/// call panics where the number of bits does not fit in 64 bits.
#[verifier::external_body]
fn ring_sha384(data: &[u8]) -> (digest: Vec<u8>)
    requires
        digestible(data@),
    ensures
        digest@ == sha384(data@),
        digest@.len() == SHA384_DIGEST_SIZE,
{
    ring::digest::digest(&ring::digest::SHA384, data).as_ref().to_vec()
}

/// The bytes of a slice as an array of the same length.
pub fn as_array<const N: usize>(slice: &[u8]) -> (r: Result<[u8; N], PolicyError>)
    ensures
        match r {
            Ok(array) => slice@.len() == N && array@ == slice@,
            Err(e) => slice@.len() != N && e == PolicyError::InvalidParameter,
        },
{
    if slice.len() != N {
        return Err(PolicyError::InvalidParameter);
    }
    let mut array = [0u8; N];
    let mut i: usize = 0;
    while i < N
        invariant
            i <= N,
            slice@.len() == N,
            array@.len() == N,
            forall|j: int| 0 <= j < i ==> array@[j] == slice@[j],
        decreases N - i,
    {
        array[i] = slice[i];
        i += 1;
    }
    assert(array@ =~= slice@);
    Ok(array)
}

/// The SHA-384 digest of some bytes. It fails only where there are too many of them.
pub fn digest_sha384(data: &[u8]) -> (r: Result<[u8; SHA384_DIGEST_SIZE], PolicyError>)
    ensures
        match r {
            Ok(digest) => digestible(data@) && digest@ == sha384(data@),
            Err(e) => !digestible(data@) && e == PolicyError::HashCalculation,
        },
{
    if data.len() as u64 > u64::MAX / 8 {
        return Err(PolicyError::HashCalculation);
    }
    let digest = ring_sha384(data);
    as_array::<SHA384_DIGEST_SIZE>(digest.as_slice())
}

} // verus!
