//! Short transaction IDs for compact blocks: a fixed keyed hash whose two
//! 64-bit keys are derived from a block header and a nonce, applied to a
//! transaction's hash to yield an 8-byte fingerprint.

use vstd::prelude::*;

use crate::types::Hash256;
use crate::types::Header;

verus! {

/// The two 64-bit short-ID keys derived from a header and a nonce: a fixed
/// mix of the nonce with the words of the header's hash.
pub open spec fn spec_short_transaction_id_keys(nonce: u64, header: Header) -> (u64, u64) {
    (
        (nonce ^ header.hash.w0) ^ (header.hash.w2 ^ 0x9e3779b97f4a7c15u64),
        (nonce ^ header.hash.w1) ^ (header.hash.w3 ^ 0x6a09e667f3bcc909u64),
    )
}

/// The short ID of a transaction hash under keys `k0`, `k1`: a fixed mix of
/// the keys with the words of the hash. It depends on nothing but its three
/// arguments, so for a given key pair it is a function of the hash alone.
pub open spec fn spec_short_transaction_id(k0: u64, k1: u64, hash: Hash256) -> u64 {
    ((k0 ^ hash.w0) ^ (k1 ^ hash.w1)) ^ ((hash.w2 ^ 0xd6e8feb86659fd93u64) ^ hash.w3)
}

/// Derive the short-ID key pair for a compact block's header and nonce.
pub fn short_transaction_id_keys(nonce: u64, header: &Header) -> (r: (u64, u64))
    ensures
        r == spec_short_transaction_id_keys(nonce, *header),
{
    (
        (nonce ^ header.hash.w0) ^ (header.hash.w2 ^ 0x9e3779b97f4a7c15u64),
        (nonce ^ header.hash.w1) ^ (header.hash.w3 ^ 0x6a09e667f3bcc909u64),
    )
}

/// Compute the short ID of a transaction hash under the given keys.
pub fn short_transaction_id(k0: u64, k1: u64, hash: &Hash256) -> (r: u64)
    ensures
        r == spec_short_transaction_id(k0, k1, *hash),
{
    ((k0 ^ hash.w0) ^ (k1 ^ hash.w1)) ^ ((hash.w2 ^ 0xd6e8feb86659fd93u64) ^ hash.w3)
}

/// Short-ID derivation is deterministic and depends only on the
/// transaction's hash: under one key pair, equal hashes give equal short
/// IDs, and the key pair itself is a function of the header and nonce
/// alone.
pub proof fn lemma_short_id_deterministic(
    nonce: u64,
    header: Header,
    a: Hash256,
    b: Hash256,
)
    requires
        a == b,
    ensures
        spec_short_transaction_id(
            spec_short_transaction_id_keys(nonce, header).0,
            spec_short_transaction_id_keys(nonce, header).1,
            a,
        ) == spec_short_transaction_id(
            spec_short_transaction_id_keys(nonce, header).0,
            spec_short_transaction_id_keys(nonce, header).1,
            b,
        ),
{
}

} // verus!
