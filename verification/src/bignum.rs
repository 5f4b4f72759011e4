use vstd::prelude::*;
use num_bigint::BigUint;
use num_traits::{One, ToPrimitive};
use crate::bytes::le_value;

verus! {

/// Calls `num_bigint::BigUint::from_bytes_le`, adds `BigUint::one()` and
/// calls `BigUint::to_bytes_le` on the sum. Trusted: the bytes returned
/// encode, least significant first, one more than `bytes` encode, with at
/// least one byte and no zero byte at the high end (`to_bytes_le` emits
/// digits only while the top limb is non-zero).
#[verifier::external_body]
pub(crate) fn le_successor_bytes(bytes: &[u8]) -> (r: Vec<u8>)
    ensures
        le_value(r@) == le_value(bytes@) + 1,
        r@.len() >= 1,
        r@.last() != 0,
{
    let mut number = BigUint::from_bytes_le(bytes);
    number += BigUint::one();
    number.to_bytes_le()
}

/// Calls `num_bigint::BigUint::from_bytes_le`, takes the remainder by
/// `modulus` and converts it with `ToPrimitive::to_u32`. Trusted: the result
/// is the little-endian value of `bytes` modulo `modulus` (which fits, being
/// below a `u32`).
#[verifier::external_body]
pub(crate) fn le_bytes_mod(bytes: &[u8], modulus: u32) -> (r: u32)
    requires
        modulus > 0,
    ensures
        r as nat == le_value(bytes@) % (modulus as nat),
{
    (BigUint::from_bytes_le(bytes) % modulus).to_u32().unwrap()
}

/// Calls `BigUint::from` on a `usize`, then `BigUint::to_bytes_le`.
/// Trusted: the bytes encode the number least significant first, with no
/// zero byte at the high end; zero is the single byte `0`.
#[verifier::external_body]
pub(crate) fn usize_to_bytes_le(x: usize) -> (r: Vec<u8>)
    ensures
        le_value(r@) == x,
        r@.len() >= 1,
        x > 0 ==> r@.last() != 0,
        x == 0 ==> r@ == seq![0u8],
{
    BigUint::from(x).to_bytes_le()
}

/// Calls `num_bigint::BigUint::from_bytes_le`, then
/// `ToPrimitive::to_u64`. Trusted: the little-endian value of `bytes` where
/// it fits in a `u64` (`to_u64` gives up once 64 bits of digits are taken),
/// `None` where it does not.
#[verifier::external_body]
pub(crate) fn le_bytes_to_u64(bytes: &[u8]) -> (r: Option<u64>)
    ensures
        r is Some <==> le_value(bytes@) <= u64::MAX,
        r matches Some(v) ==> v == le_value(bytes@),
{
    BigUint::from_bytes_le(bytes).to_u64()
}

} // verus!
