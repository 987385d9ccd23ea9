//! The Keccak-256 hash function.

use vstd::prelude::*;

verus! {

/// The Keccak-256 digest of `data`.
pub uninterp spec fn keccak256(data: Seq<u8>) -> [u8; 32];

/// Calls `solana_keccak_hasher::hash` and takes the bytes of the `Hash` that it returns.
///
/// Trusted: the digest depends on the bytes of `data` alone, and `keccak256` names it.
/// Nothing else is claimed of the digest.
#[verifier::external_body]
pub(crate) fn keccak_hash(data: &[u8]) -> (digest: [u8; 32])
    ensures
        digest == keccak256(data@),
{
    solana_keccak_hasher::hash(data).to_bytes()
}

/// Two different byte strings with one digest.
pub open spec fn is_collision(x: Seq<u8>, y: Seq<u8>) -> bool {
    x != y && keccak256(x) == keccak256(y)
}

} // verus!
