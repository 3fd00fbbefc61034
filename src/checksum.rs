//! Module checksums: the SHA3-256 digest of a module's bytes.

use sha3::Digest;
use vstd::prelude::*;

verus! {

/// A module checksum.
pub type Checksum = [u8; 32];

/// The SHA3-256 digest of `bytes`.
pub uninterp spec fn sha3_256_of(bytes: Seq<u8>) -> Seq<u8>;

/// Relies on `sha3::Sha3_256::digest`: the 32-byte SHA3-256 digest, which
/// depends on the bytes alone.
#[verifier::external_body]
fn sha3_256(bytes: &[u8]) -> (r: Checksum)
    ensures
        r@ == sha3_256_of(bytes@),
{
    sha3::Sha3_256::digest(bytes).into()
}

/// The checksum of module bytes.
pub fn module_checksum(bytes: &[u8]) -> (r: Checksum)
    ensures
        r@ == sha3_256_of(bytes@),
{
    sha3_256(bytes)
}

} // verus!
