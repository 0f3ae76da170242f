//! Content hashing of byte ranges. The digest itself comes from an
//! outside implementation; everything stated of it goes through an
//! uninterpreted name for the digest of a byte sequence.
use sha1::Digest;
use vstd::prelude::*;

verus! {

/// The 20-byte content digest of a byte sequence, as the outside SHA-1
/// implementation computes it.
pub uninterp spec fn sha1_of(data: Seq<u8>) -> Seq<u8>;

/// Relies on sha1's Sha1 (update, then finalize): the 20-byte digest
/// depends on the input bytes alone.
#[verifier::external_body]
pub(crate) fn get_sha1(data: &[u8]) -> (r: Vec<u8>)
    ensures
        r@ == sha1_of(data@),
        r@.len() == 20,
{
    let mut hasher = sha1::Sha1::new();
    hasher.update(data);
    hasher.finalize().to_vec()
}

} // verus!
