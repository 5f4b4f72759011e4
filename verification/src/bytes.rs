use vstd::prelude::*;

verus! {

/// `256` raised to `n`: how many distinct values `n` bytes can hold.
pub open spec fn byte_radix_pow(n: nat) -> nat
    decreases n,
{
    if n == 0 {
        1
    } else {
        256 * byte_radix_pow((n - 1) as nat)
    }
}

/// The unsigned integer that `bytes` encode, least significant byte first.
pub open spec fn le_value(bytes: Seq<u8>) -> nat
    decreases bytes.len(),
{
    if bytes.len() == 0 {
        0
    } else {
        bytes[0] as nat + 256 * le_value(bytes.drop_first())
    }
}

pub proof fn lemma_radix_pow_positive(n: nat)
    ensures
        byte_radix_pow(n) >= 1,
    decreases n,
{
    if n > 0 {
        lemma_radix_pow_positive((n - 1) as nat);
    }
}

pub proof fn lemma_radix_pow_monotone(a: nat, b: nat)
    requires
        a <= b,
    ensures
        byte_radix_pow(a) <= byte_radix_pow(b),
    decreases b,
{
    if a < b {
        lemma_radix_pow_monotone(a, (b - 1) as nat);
        lemma_radix_pow_positive((b - 1) as nat);
    }
}

/// A value encoded in `n` bytes stays below `256^n`.
pub proof fn lemma_le_value_bound(s: Seq<u8>)
    ensures
        le_value(s) < byte_radix_pow(s.len()),
    decreases s.len(),
{
    if s.len() > 0 {
        let rest = s.drop_first();
        lemma_le_value_bound(rest);
        let x = le_value(rest);
        let p = byte_radix_pow(rest.len());
        let b = s[0] as nat;
        assert(b + 256 * x < 256 * p) by (nonlinear_arith)
            requires
                x < p,
                b < 256,
        ;
    }
}

/// The value of a concatenation: the low part plus the high part shifted past it.
pub proof fn lemma_le_value_concat(a: Seq<u8>, b: Seq<u8>)
    ensures
        le_value(a + b) == le_value(a) + byte_radix_pow(a.len()) * le_value(b),
    decreases a.len(),
{
    if a.len() == 0 {
        assert(a + b =~= b);
        assert(le_value(a) == 0);
        assert(byte_radix_pow(a.len()) == 1);
        assert(1 * le_value(b) == le_value(b));
    } else {
        let rest = a.drop_first();
        assert((a + b).drop_first() =~= rest + b);
        lemma_le_value_concat(rest, b);
        let x = le_value(rest);
        let p = byte_radix_pow(rest.len());
        let y = le_value(b);
        let a0 = a[0] as nat;
        assert(byte_radix_pow(a.len()) == 256 * p);
        assert(le_value(a) == a0 + 256 * x);
        assert((a + b)[0] == a[0]);
        assert(le_value(a + b) == a0 + 256 * le_value(rest + b));
        assert(le_value(rest + b) == x + p * y);
        assert(a0 + 256 * (x + p * y) == (a0 + 256 * x) + (256 * p) * y) by (nonlinear_arith);
    }
}

/// Only all-zero bytes encode zero.
pub proof fn lemma_le_value_zero(s: Seq<u8>)
    requires
        le_value(s) == 0,
    ensures
        forall|i: int| 0 <= i < s.len() ==> s[i] == 0,
    decreases s.len(),
{
    if s.len() > 0 {
        let rest = s.drop_first();
        assert(le_value(rest) == 0) by (nonlinear_arith)
            requires
                s[0] as nat + 256 * le_value(rest) == 0,
        ;
        lemma_le_value_zero(rest);
        assert forall|i: int| 0 <= i < s.len() implies s[i] == 0 by {
            if i > 0 {
                assert(s[i] == rest[i - 1]);
            }
        }
    }
}

/// Two byte strings of one length that encode the same value are equal.
pub proof fn lemma_le_value_injective(a: Seq<u8>, b: Seq<u8>)
    requires
        a.len() == b.len(),
        le_value(a) == le_value(b),
    ensures
        a == b,
    decreases a.len(),
{
    if a.len() > 0 {
        let ra = a.drop_first();
        let rb = b.drop_first();
        let x = le_value(ra);
        let y = le_value(rb);
        let a0 = a[0] as int;
        let b0 = b[0] as int;
        assert(a0 == b0 && x == y) by (nonlinear_arith)
            requires
                a0 + 256 * x == b0 + 256 * y,
                0 <= a0 < 256,
                0 <= b0 < 256,
                x >= 0,
                y >= 0,
        ;
        lemma_le_value_injective(ra, rb);
        assert(a =~= b) by {
            assert forall|i: int| 0 <= i < a.len() implies a[i] == b[i] by {
                if i > 0 {
                    assert(a[i] == ra[i - 1]);
                    assert(b[i] == rb[i - 1]);
                }
            }
        }
    }
}

/// The `n` low bytes of `v`, least significant first.
pub open spec fn le_encode(v: nat, n: nat) -> Seq<u8>
    decreases n,
{
    if n == 0 {
        Seq::empty()
    } else {
        seq![(v % 256) as u8] + le_encode(v / 256, (n - 1) as nat)
    }
}

/// The `n` low bytes of `v` encode `v` modulo `256^n`.
pub proof fn lemma_le_encode(v: nat, n: nat)
    ensures
        le_encode(v, n).len() == n,
        le_value(le_encode(v, n)) == v % byte_radix_pow(n),
    decreases n,
{
    if n == 0 {
    } else {
        let e = le_encode(v, n);
        let rest = le_encode(v / 256, (n - 1) as nat);
        lemma_le_encode(v / 256, (n - 1) as nat);
        assert(e.drop_first() =~= rest);
        assert(e[0] == (v % 256) as u8);
        lemma_radix_pow_positive((n - 1) as nat);
        let p = byte_radix_pow((n - 1) as nat);
        vstd::arithmetic::div_mod::lemma_breakdown(v as int, 256, p as int);
        assert(le_value(e) == (v % 256) + 256 * ((v / 256) % p));
    }
}

/// A byte string is the low bytes of the value it encodes.
pub proof fn lemma_le_encode_value(s: Seq<u8>, v: nat)
    requires
        le_value(s) == v % byte_radix_pow(s.len()),
    ensures
        s == le_encode(v, s.len()),
{
    lemma_le_encode(v, s.len());
    lemma_le_value_injective(s, le_encode(v, s.len()));
}

/// A byte string whose top byte is not zero encodes at least `256^(len - 1)`.
pub proof fn lemma_le_value_top_byte(s: Seq<u8>)
    requires
        s.len() >= 1,
        s.last() != 0,
    ensures
        le_value(s) >= byte_radix_pow((s.len() - 1) as nat),
{
    let d = s.drop_last();
    let t = seq![s.last()];
    assert(s =~= d + t);
    lemma_le_value_concat(d, t);
    assert(t.drop_first() =~= Seq::<u8>::empty());
    assert(le_value(t.drop_first()) == 0);
    assert(t[0] == s.last());
    assert(le_value(t) == t[0] as nat + 256 * le_value(t.drop_first()));
    assert(le_value(t) == s.last() as nat);
    let p = byte_radix_pow(d.len());
    assert(p * le_value(t) >= p) by (nonlinear_arith)
        requires
            le_value(t) >= 1,
    ;
}

/// `256^8 == 2^64`.
pub proof fn lemma_radix_pow_8()
    ensures
        byte_radix_pow(8) == 0x1_0000_0000_0000_0000,
{
    assert(byte_radix_pow(0) == 1);
    assert(byte_radix_pow(1) == 0x100);
    assert(byte_radix_pow(2) == 0x1_0000);
    assert(byte_radix_pow(3) == 0x100_0000);
    assert(byte_radix_pow(4) == 0x1_0000_0000);
    assert(byte_radix_pow(5) == 0x100_0000_0000);
    assert(byte_radix_pow(6) == 0x1_0000_0000_0000);
    assert(byte_radix_pow(7) == 0x100_0000_0000_0000);
}

} // verus!
