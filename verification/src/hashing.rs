//! The Groestl-256 digest, taken from the outside hash crate, under a name.

use vstd::prelude::*;
use groestl::{Digest, Groestl256};

verus! {

/// The 32-byte Groestl-256 digest of a byte string.  The digest depends on
/// the input bytes alone.
pub uninterp spec fn groestl_of(data: Seq<u8>) -> Seq<u8>;

/// Relies on groestl::Groestl256 of the RustCrypto hashes: the Groestl-256
/// hash of the input, a deterministic 32-byte digest.
#[verifier::external_body]
pub(crate) fn groestl256(data: &Vec<u8>) -> (r: Vec<u8>)
    ensures
        r@ == groestl_of(data@),
        r@.len() == 32,
{
    Groestl256::digest(data.as_slice()).to_vec()
}

} // verus!
