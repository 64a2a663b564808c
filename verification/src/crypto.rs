//! The one cryptographic primitive the engine relies on.
//!
//! Signature checking over the P-384 curve with the 384-bit digest is
//! delegated to the `p384` crate.  Its verdict is a function of the three
//! byte strings alone, so it is named by the uninterpreted spec function
//! [`ecdsa_p384_valid`]; every contract in the crate speaks of that name.

use vstd::prelude::*;

verus! {

/// Whether `sig` (two fixed-width 48-byte scalars) is a valid signature
/// over `msg` by the key `key` (an uncompressed or compressed curve
/// point), under the curve's own digest.  Deterministic in its
/// arguments; no further properties are assumed.
pub uninterp spec fn ecdsa_p384_valid(key: Seq<u8>, msg: Seq<u8>, sig: Seq<u8>) -> bool;

/// Relies on p384: `VerifyingKey::from_sec1_bytes` to read the key
/// point, `Signature::from_slice` to read the two fixed-width scalars,
/// and `Verifier::verify`, which hashes the message with the curve's
/// 384-bit digest and checks the signature equation.  A key or signature
/// that does not parse verifies nothing.  The verdict depends only on
/// the three byte strings.
#[verifier::external_body]
pub(crate) fn ecdsa_p384_verify(key: &Vec<u8>, msg: &Vec<u8>, sig: &Vec<u8>) -> (r: bool)
    ensures
        r == ecdsa_p384_valid(key@, msg@, sig@),
{
    match p384::ecdsa::VerifyingKey::from_sec1_bytes(key.as_slice()) {
        Ok(vk) => match p384::ecdsa::Signature::from_slice(sig.as_slice()) {
            Ok(sg) => p384::ecdsa::signature::Verifier::verify(&vk, msg.as_slice(), &sg).is_ok(),
            Err(_) => false,
        },
        Err(_) => false,
    }
}

} // verus!
