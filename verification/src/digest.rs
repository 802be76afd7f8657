//! The digests the enforcer relies on. Double SHA-256 comes from the
//! bitcoin crate; everything built on it is verified against its name.

use vstd::prelude::*;

use bitcoin::hashes::Hash as BitcoinHash;

use crate::bytes::{dup_bytes, le64_bytes, push_le64};
use crate::types::Hash256;

verus! {

/// What double SHA-256 returns on the given bytes.
pub uninterp spec fn sha256d_spec(data: Seq<u8>) -> Hash256;

/// Relies on `bitcoin::hashes::sha256d::Hash::hash`: the 32-byte digest of
/// the input, a function of the bytes alone.
#[verifier::external_body]
pub fn sha256d(data: &Vec<u8>) -> (r: Hash256)
    ensures
        r == sha256d_spec(data@),
{
    let h = bitcoin::hashes::sha256d::Hash::hash(data.as_slice()).to_byte_array();
    Hash256 {
        w0: u64::from_le_bytes(h[0..8].try_into().unwrap()),
        w1: u64::from_le_bytes(h[8..16].try_into().unwrap()),
        w2: u64::from_le_bytes(h[16..24].try_into().unwrap()),
        w3: u64::from_le_bytes(h[24..32].try_into().unwrap()),
    }
}

/// The identity of a withdrawal bundle: the digest of the bundle's
/// serialized transaction followed by the treasury total it withdraws from,
/// so that the id binds the withdrawing balance.
pub open spec fn m6id_spec(raw: Seq<u8>, previous_treasury_value: u64) -> Hash256 {
    sha256d_spec(raw + le64_bytes(previous_treasury_value))
}

/// Computes the withdrawal-bundle id of a serialized transaction against
/// the treasury total it would withdraw from.
pub fn m6_to_id(raw: &Vec<u8>, previous_treasury_value: u64) -> (r: Hash256)
    ensures
        r == m6id_spec(raw@, previous_treasury_value),
{
    let mut buf = dup_bytes(raw);
    push_le64(&mut buf, previous_treasury_value);
    sha256d(&buf)
}

} // verus!
