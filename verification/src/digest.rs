//! The digest provider: an opaque, deterministic map from arbitrary-length
//! byte sequences to fixed-length digests. The core inspects a digest only
//! bit by bit; nothing else about its contents is assumed.

use vstd::prelude::*;

verus! {

/// Number of bytes in a digest.
pub const DIGEST_LENGTH: usize = 20;

/// A digest: the fixed-length output of the digest provider.
pub type Digest = [u8; 20];

/// What the digest provider returns for a given byte sequence. Deterministic
/// and a function of the input alone; otherwise unspecified.
pub uninterp spec fn sha1_digest_of(data: Seq<u8>) -> Seq<u8>;

/// Relies on `sha1::Sha1` (`new`, `update`, then `digest().bytes()`): SHA-1 is
/// a pure function of the bytes fed to `update`, returning a 20-byte digest.
#[verifier::external_body]
pub fn hash(data: &[u8]) -> (r: Digest)
    ensures
        r@ == sha1_digest_of(data@),
{
    let mut m = sha1::Sha1::new();
    m.update(data);
    m.digest().bytes()
}

} // verus!
