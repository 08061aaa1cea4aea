//! The SHA-256 digest of a message.

use sha2::{Digest, Sha256};
use vstd::prelude::*;

verus! {

/// The SHA-256 digest of `msg`: 32 bytes that depend on the message alone.
pub uninterp spec fn sha256_digest(msg: Seq<u8>) -> Seq<u8>;

/// `Sha256` of the `sha2` crate, fed the whole message and finalized.
///
/// The contract gives the digest its name; it does not say which bytes the
/// digest holds.
#[verifier::external_body]
pub(crate) fn sha256(msg: &[u8]) -> (digest: [u8; 32])
    ensures
        digest@ == sha256_digest(msg@),
{
    Sha256::new().chain_update(msg).finalize().into()
}

} // verus!
