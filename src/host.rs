//! The calls into the NEAR host environment that the library relies on.

use vstd::prelude::*;

verus! {

/// The Keccak-256 digest of a byte string.
pub uninterp spec fn keccak256_of(data: Seq<u8>) -> Seq<u8>;

/// Relies on `near_sdk::env::keccak256_array`: the 32-byte Keccak-256 digest
/// of the bytes, which depends on the bytes alone.
#[verifier::external_body]
pub(crate) fn keccak256(data: &[u8]) -> (r: [u8; 32])
    ensures
        r@ == keccak256_of(data@),
{
    near_sdk::env::keccak256_array(data)
}

/// Relies on `near_sdk::env::predecessor_account_id`: the account that made
/// the current call, as its string form.
#[verifier::external_body]
pub(crate) fn predecessor_account_id() -> (r: String) {
    String::from(near_sdk::env::predecessor_account_id())
}

/// Relies on `near_sdk::env::block_timestamp_ms`: the current block time in
/// milliseconds.
#[verifier::external_body]
pub(crate) fn block_timestamp_ms() -> (r: u64) {
    near_sdk::env::block_timestamp_ms()
}

} // verus!
