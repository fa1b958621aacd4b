//! The trusted boundary: every call into an outside crate is confined to
//! one of the wrappers below, and everything else is proved against the
//! contracts stated here.

use vstd::prelude::*;
use sha2::Digest;
use crate::values::bytes_value;

verus! {

/// What SHA-256 returns on a byte string; a function of the bytes alone.
pub uninterp spec fn sha256_of(msg: Seq<u8>) -> Seq<u8>;

/// Relies on sha2::Sha256::digest: the 32-byte SHA-256 digest of the
/// input, determined by the input bytes alone.
#[verifier::external_body]
pub(crate) fn sha256_digest(msg: &Vec<u8>) -> (r: Vec<u8>)
    ensures
        r@ == sha256_of(msg@),
        r@.len() == 32,
{
    sha2::Sha256::digest(msg.as_slice()).to_vec()
}

/// Relies on num_bigint::BigUint: `/` of two values is their Euclidean
/// quotient, and `from_bytes_le` / `to_bytes_le` read and write the
/// little-endian base-256 representation.
#[verifier::external_body]
pub(crate) fn biguint_div(a: &Vec<u8>, m: &Vec<u8>) -> (q: Vec<u8>)
    requires
        bytes_value(m@) > 0,
    ensures
        bytes_value(q@) == bytes_value(a@) / bytes_value(m@),
{
    let x = num_bigint::BigUint::from_bytes_le(a.as_slice());
    let y = num_bigint::BigUint::from_bytes_le(m.as_slice());
    (x / y).to_bytes_le()
}

/// Relies on num_bigint::BigUint: `%` of two values is their Euclidean
/// remainder, in the same little-endian byte representation.
#[verifier::external_body]
pub(crate) fn biguint_rem(a: &Vec<u8>, m: &Vec<u8>) -> (r: Vec<u8>)
    requires
        bytes_value(m@) > 0,
    ensures
        bytes_value(r@) == bytes_value(a@) % bytes_value(m@),
{
    let x = num_bigint::BigUint::from_bytes_le(a.as_slice());
    let y = num_bigint::BigUint::from_bytes_le(m.as_slice());
    (x % y).to_bytes_le()
}

} // verus!
