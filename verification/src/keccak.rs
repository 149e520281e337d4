//! The hash function.

use vstd::prelude::*;

verus! {

/// The Keccak-256 digest of a message.
pub uninterp spec fn keccak256_digest(message: Seq<u8>) -> Seq<u8>;

/// Calls `ethers_core::utils::keccak256`: the Keccak-256 digest, of 32 bytes, which depends on the
/// message alone.
#[verifier::external_body]
pub(crate) fn keccak256(message: &Vec<u8>) -> (r: Vec<u8>)
    ensures
        r@ == keccak256_digest(message@),
        r@.len() == 32,
{
    ethers_core::utils::keccak256(message).to_vec()
}

} // verus!
