//! The hash that identifies torrents and pieces.
use sha1::Digest;
use vstd::prelude::*;

verus! {

/// The SHA-1 hash of a byte string.
pub uninterp spec fn sha1_of(data: Seq<u8>) -> Seq<u8>;

/// `Sha1::digest`: the SHA-1 hash of a byte string, which depends on the bytes alone.
#[verifier::external_body]
pub(crate) fn sha1_digest(data: &[u8]) -> (hash: [u8; 20])
    ensures
        hash@ == sha1_of(data@),
{
    sha1::Sha1::digest(data).into()
}

} // verus!
