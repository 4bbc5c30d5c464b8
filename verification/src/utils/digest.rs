//! The SHA-1 digest, computed by the `sha1` crate.

use sha1::{Digest, Sha1};
use vstd::prelude::*;

verus! {

/// The longest message, in bytes, that SHA-1 is defined for here: its length
/// in bits has to fit in 64 bits.
pub const SHA1_MAX_INPUT_LEN: u64 = 0x1fff_ffff_ffff_ffff;

/// The SHA-1 digest of a message: twenty bytes.
pub uninterp spec fn sha1(data: Seq<u8>) -> Seq<u8>;

/// `Sha1::new`, `update` and `finalize` of the `sha1` crate: the SHA-1 digest
/// of `data`.
///
/// The digest is a function of the message alone, named [`sha1`]; it has
/// twenty bytes (the crate's output size is `U20`). The crate counts the
/// message's bits in a `u64`, so the message has to be shorter than 2^61
/// bytes.
#[verifier::external_body]
pub(crate) fn sha1_digest(data: &[u8]) -> (digest: [u8; 20])
    requires
        data@.len() <= SHA1_MAX_INPUT_LEN,
    ensures
        digest@ == sha1(data@),
{
    let mut hasher = Sha1::new();
    hasher.update(data);
    let sum = hasher.finalize();
    let mut digest = [0u8; 20];
    digest.copy_from_slice(sum.as_slice());
    digest
}

} // verus!
