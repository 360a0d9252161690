//! The binary hash primitive over field elements, supplied by an outside
//! cryptographic library and trusted at its interface.

use crate::felt::Felt;
use vstd::prelude::*;

verus! {

/// The Pedersen hash of two field element values, as the proof system's
/// cryptographic library computes it: a function of its two arguments alone.
pub uninterp spec fn pedersen_of(x: nat, y: nat) -> nat;

/// Relies on `starknet_crypto::pedersen_hash`: the Starkware Pedersen hash of
/// two field elements, a deterministic function of the two values. The
/// conversions in and out go through the canonical 32-byte big-endian form:
/// `FieldElement::from_byte_slice_be` accepts every canonical value, and
/// `FieldElement::to_bytes_be` produces the result reduced modulo the prime.
#[verifier::external_body]
pub fn pedersen(a: &Felt, b: &Felt) -> (r: Felt)
    requires
        a.wf(),
        b.wf(),
    ensures
        r.wf(),
        r@ == pedersen_of(a@, b@),
{
    let x = starknet_crypto::FieldElement::from_byte_slice_be(&a.to_bytes_be()).unwrap();
    let y = starknet_crypto::FieldElement::from_byte_slice_be(&b.to_bytes_be()).unwrap();
    let h = starknet_crypto::pedersen_hash(&x, &y);
    Felt::from_bytes_be(&h.to_bytes_be().to_vec()).unwrap()
}

} // verus!
