use vstd::prelude::*;
use crate::bytes::{byte_radix_pow, le_encode, le_value, lemma_le_encode, lemma_le_encode_value, lemma_le_value_bound, lemma_le_value_concat, lemma_le_value_zero, lemma_radix_pow_monotone, lemma_radix_pow_positive};
use crate::bignum::le_successor_bytes;

verus! {

/// Advances a little-endian counter by one, wrapping to zero after the
/// largest value its bytes can hold.
pub fn increase_bytes_le(nonce: &mut Vec<u8>)
    ensures
        final(nonce)@.len() == old(nonce)@.len(),
        le_value(final(nonce)@) == (le_value(old(nonce)@) + 1) % byte_radix_pow(old(nonce)@.len()),
{
    let ghost old_bytes = nonce@;
    let new_bytes = le_successor_bytes(nonce.as_slice());
    let n = nonce.len();
    let min_len = if n < new_bytes.len() { n } else { new_bytes.len() };
    let mut i: usize = 0;
    while i < min_len
        invariant
            i <= min_len,
            min_len <= n,
            min_len <= new_bytes@.len(),
            n == old_bytes.len(),
            nonce@ =~= new_bytes@.subrange(0, i as int) + old_bytes.subrange(i as int, n as int),
        decreases min_len - i,
    {
        nonce.set(i, new_bytes[i]);
        i = i + 1;
        assert(nonce@ =~= new_bytes@.subrange(0, i as int) + old_bytes.subrange(i as int, n as int));
    }
    proof {
        lemma_successor_copy(old_bytes, new_bytes@, nonce@);
    }
}

/// Copying the low bytes of `value + 1` over the low bytes of a counter
/// that encodes `value` leaves the counter at `value + 1` modulo its range.
proof fn lemma_successor_copy(old_bytes: Seq<u8>, succ: Seq<u8>, result: Seq<u8>)
    requires
        le_value(succ) == le_value(old_bytes) + 1,
        ({
            let k = if old_bytes.len() < succ.len() { old_bytes.len() } else { succ.len() };
            result == succ.subrange(0, k as int) + old_bytes.subrange(k as int, old_bytes.len() as int)
        }),
    ensures
        result.len() == old_bytes.len(),
        le_value(result) == (le_value(old_bytes) + 1) % byte_radix_pow(old_bytes.len()),
{
    let n = old_bytes.len();
    let v = le_value(old_bytes);
    let p = byte_radix_pow(n);
    lemma_radix_pow_positive(n);
    if succ.len() >= n {
        let low = succ.subrange(0, n as int);
        let high = succ.subrange(n as int, succ.len() as int);
        assert(succ =~= low + high);
        assert(result =~= low);
        lemma_le_value_concat(low, high);
        lemma_le_value_bound(low);
        let l = le_value(low) as int;
        let h = le_value(high) as int;
        assert(((v + 1) as int) % (p as int) == l) by {
            vstd::arithmetic::div_mod::lemma_fundamental_div_mod_converse_mod((v + 1) as int, p as int, h, l);
        }
    } else {
        let k = succ.len();
        let low = old_bytes.subrange(0, k as int);
        let high = old_bytes.subrange(k as int, n as int);
        assert(old_bytes =~= low + high);
        lemma_le_value_concat(low, high);
        lemma_le_value_bound(succ);
        lemma_radix_pow_positive(k);
        let pk = byte_radix_pow(k) as int;
        assert(le_value(high) == 0) by (nonlinear_arith)
            requires
                v == le_value(low) + pk * le_value(high),
                v + 1 < pk,
                pk >= 1,
        ;
        lemma_le_value_zero(high);
        assert(result =~= succ + high);
        lemma_le_value_concat(succ, high);
        assert(le_value(result) == le_value(succ) + byte_radix_pow(k) * le_value(high));
        assert(byte_radix_pow(k) * le_value(high) == 0) by (nonlinear_arith)
            requires
                le_value(high) == 0,
        ;
        assert(le_value(result) == v + 1);
        lemma_radix_pow_monotone(k, n);
        assert(v + 1 < p);
        vstd::arithmetic::div_mod::lemma_small_mod((v + 1) as nat, p);
    }
}

/// The nonce of the chunk at `index`: the counter started at zero and
/// advanced once per chunk, in `len` bytes.
pub open spec fn counter_nonce(index: nat, len: nat) -> Seq<u8> {
    le_encode(index, len)
}

/// A counter at `counter_nonce(k, n)` advances to `counter_nonce(k + 1, n)`.
pub proof fn lemma_counter_nonce_step(old_bytes: Seq<u8>, new_bytes: Seq<u8>, k: nat)
    requires
        old_bytes == counter_nonce(k, old_bytes.len()),
        new_bytes.len() == old_bytes.len(),
        le_value(new_bytes) == (le_value(old_bytes) + 1) % byte_radix_pow(old_bytes.len()),
    ensures
        new_bytes == counter_nonce(k + 1, old_bytes.len()),
{
    let n = old_bytes.len();
    let p = byte_radix_pow(n);
    lemma_radix_pow_positive(n);
    lemma_le_encode(k, n);
    assert(le_value(old_bytes) == k % p);
    vstd::arithmetic::div_mod::lemma_add_mod_noop(k as int, 1, p as int);
    assert(((k % p) + 1) % p == (k + 1) % p) by {
        if p == 1 {
            assert(((k % p) + 1) % p == 0);
            assert((k + 1) % p == 0);
        } else {
            vstd::arithmetic::div_mod::lemma_small_mod(1, p);
        }
    }
    lemma_le_encode_value(new_bytes, k + 1);
}

/// The all-zero nonce is the counter at zero.
pub proof fn lemma_zero_nonce(s: Seq<u8>)
    requires
        forall|i: int| 0 <= i < s.len() ==> s[i] == 0,
    ensures
        s == counter_nonce(0, s.len()),
    decreases s.len(),
{
    lemma_le_value_of_zeros(s);
    lemma_radix_pow_positive(s.len());
    lemma_le_encode_value(s, 0);
}

proof fn lemma_le_value_of_zeros(s: Seq<u8>)
    requires
        forall|i: int| 0 <= i < s.len() ==> s[i] == 0,
    ensures
        le_value(s) == 0,
    decreases s.len(),
{
    if s.len() > 0 {
        lemma_le_value_of_zeros(s.drop_first());
    }
}

/// Chunks at different indices below the counter's range are sealed under
/// different nonces: no nonce is used twice within a stream of at most
/// `256^len` chunks.
pub proof fn lemma_counter_nonces_distinct(i: nat, j: nat, len: nat)
    requires
        i != j,
        i < byte_radix_pow(len),
        j < byte_radix_pow(len),
    ensures
        counter_nonce(i, len) != counter_nonce(j, len),
{
    lemma_le_encode(i, len);
    lemma_le_encode(j, len);
    vstd::arithmetic::div_mod::lemma_small_mod(i, byte_radix_pow(len));
    vstd::arithmetic::div_mod::lemma_small_mod(j, byte_radix_pow(len));
}

} // verus!
