use vstd::prelude::*;
use hmac::{Hmac, Mac};
use sha3::Sha3_256;
use crate::bignum::le_bytes_mod;
use crate::bytes::le_value;
use crate::error::CtbError;
use crate::file_format::repeat_bytes;

verus! {

/// The number of rounds is the root key's little-endian value modulo this.
pub const MAX_ITERATION: u32 = 10000u32;

/// Length in bytes of a derived key.
pub const DERIVED_KEY_LEN: usize = 32;

/// HMAC-SHA3-256 of `message` under `key`.
pub uninterp spec fn hmac_sha3_256(key: Seq<u8>, message: Seq<u8>) -> Seq<u8>;

#[verifier::external_type_specification]
#[verifier::external_body]
pub struct ExInvalidLength(hmac::digest::InvalidLength);

/// Calls `Mac::new_from_slice`, `Mac::update` and `Mac::finalize` of
/// `hmac::Hmac<sha3::Sha3_256>`. Trusted: HMAC takes keys of any length, so
/// it always succeeds, and gives the 32-byte tag of the message.
#[verifier::external_body]
fn hmac_sha3_256_tag(key: &[u8], message: &[u8]) -> (r: Result<Vec<u8>, hmac::digest::InvalidLength>)
    ensures
        r is Ok,
        r matches Ok(t) ==> t@ == hmac_sha3_256(key@, message@) && t@.len() == DERIVED_KEY_LEN,
{
    let mut mac = <Hmac<Sha3_256> as Mac>::new_from_slice(key)?;
    mac.update(message);
    Ok(mac.finalize().into_bytes().to_vec())
}

/// The message a derived key is the MAC of: the root key and the context,
/// repeated as many times as the root key's value modulo `MAX_ITERATION`.
pub open spec fn derivation_message(root_key: Seq<u8>, context: Seq<u8>) -> Seq<u8> {
    repeat_bytes(root_key + context, le_value(root_key) % (MAX_ITERATION as nat))
}

/// Block `i` of `len` bytes of `m`.
pub open spec fn block(m: Seq<u8>, len: nat, i: int) -> Seq<u8> {
    m.subrange(i * len, (i + 1) * len)
}

/// `s` written `n` times is `n` blocks of `s`.
proof fn lemma_repeat_blocks(s: Seq<u8>, n: nat)
    ensures
        repeat_bytes(s, n).len() == n * s.len(),
        forall|i: int| 0 <= i < n ==> #[trigger] block(repeat_bytes(s, n), s.len(), i) == s,
    decreases n,
{
    if n > 0 {
        let m = (n - 1) as nat;
        lemma_repeat_blocks(s, m);
        let prev = repeat_bytes(s, m);
        let cur = repeat_bytes(s, n);
        assert(cur == prev + s);
        assert(prev.len() == m * s.len());
        assert(n * s.len() == m * s.len() + s.len()) by (nonlinear_arith)
            requires
                m + 1 == n,
        ;
        assert forall|i: int| 0 <= i < n implies #[trigger] block(cur, s.len(), i) == s by {
            assert(i * s.len() + s.len() == (i + 1) * s.len()) by (nonlinear_arith);
            if i < m {
                assert((i + 1) * s.len() <= m * s.len()) by (nonlinear_arith)
                    requires
                        i + 1 <= m,
                ;
                assert(0 <= i * s.len()) by (nonlinear_arith)
                    requires
                        0 <= i,
                ;
                assert(block(prev, s.len(), i) == s);
                assert(block(cur, s.len(), i) =~= block(prev, s.len(), i));
            } else {
                assert(i == m);
                assert(block(cur, s.len(), i) =~= s);
            }
        }
    }
}

/// The message a key is derived from is the root key followed by the
/// context, written exactly (the root key's little-endian value mod 10000)
/// times: that many blocks of that length, each the root key and the context.
pub proof fn lemma_derivation_message_blocks(root_key: Seq<u8>, context: Seq<u8>)
    ensures
        derivation_message(root_key, context).len() == (le_value(root_key) % 10000) * (root_key.len() + context.len()),
        forall|i: int| 0 <= i < le_value(root_key) % 10000
            ==> #[trigger] block(derivation_message(root_key, context), (root_key.len() + context.len()) as nat, i)
                == root_key + context,
{
    lemma_repeat_blocks(root_key + context, le_value(root_key) % 10000);
}

/// Derives a key from the root key and a context: the HMAC-SHA3-256, under
/// the root key, of the root key and the context repeated a number of times
/// that the root key fixes.
pub fn generate_key(root_key: &[u8], context: &[u8]) -> (r: Result<Vec<u8>, CtbError>)
    ensures
        r matches Ok(k) && k@ == hmac_sha3_256(root_key@, derivation_message(root_key@, context@)),
{
    let iteration = le_bytes_mod(root_key, MAX_ITERATION);
    let mut message: Vec<u8> = Vec::new();
    let mut i: u32 = 0;
    while i < iteration
        invariant
            i <= iteration,
            message@ == repeat_bytes(root_key@ + context@, i as nat),
        decreases iteration - i,
    {
        message.extend_from_slice(root_key);
        message.extend_from_slice(context);
        i = i + 1;
        assert(message@ =~= repeat_bytes(root_key@ + context@, i as nat));
    }
    match hmac_sha3_256_tag(root_key, message.as_slice()) {
        Ok(tag) => Ok(tag),
        Err(_) => Err(CtbError::Encryption),
    }
}

} // verus!
