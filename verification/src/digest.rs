//! Content digests. The digest itself comes from an outside SHA-1
//! implementation; everything downstream (hex encoding, prefix splitting)
//! is verified against the named result `sha1_of`.
use vstd::prelude::*;
use sha1::Digest;

verus! {

/// The SHA-1 digest of a byte string, named: the same bytes always give the
/// same digest, on every machine and in every run.
pub uninterp spec fn sha1_of(data: Seq<u8>) -> Seq<u8>;

/// Relies on sha1::Sha1 (the RustCrypto SHA-1 implementation): the digest
/// depends on the input bytes alone and is always 20 bytes long.
#[verifier::external_body]
pub(crate) fn sha1_digest(data: &Vec<u8>) -> (r: Vec<u8>)
    ensures
        r@ == sha1_of(data@),
        r@.len() == 20,
{
    sha1::Sha1::digest(data.as_slice()).to_vec()
}

} // verus!
