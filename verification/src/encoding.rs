//! Big-endian fixed-width byte encodings of unsigned values, the base layer of
//! the profile-data store: a value is laid out most-significant byte first.

use vstd::arithmetic::div_mod::{lemma_fundamental_div_mod, lemma_multiply_divide_lt};
use vstd::arithmetic::power::{lemma_pow_positive, pow};
use vstd::arithmetic::power2::pow2;
use vstd::prelude::*;

verus! {

/// The `n`-byte big-endian encoding of `v` (modulo `256^n`): the last byte is
/// the least significant.
pub open spec fn be_bytes(v: nat, n: nat) -> Seq<u8>
    decreases n,
{
    if n == 0 {
        Seq::empty()
    } else {
        be_bytes(v / 256, (n - 1) as nat).push((v % 256) as u8)
    }
}

/// The value that a big-endian byte sequence denotes.
pub open spec fn be_value(s: Seq<u8>) -> nat
    decreases s.len(),
{
    if s.len() == 0 {
        0
    } else {
        (be_value(s.drop_last()) * 256 + s.last()) as nat
    }
}

/// A big-endian encoding is exactly as wide as asked.
pub proof fn lemma_be_bytes_len(v: nat, n: nat)
    ensures
        be_bytes(v, n).len() == n,
    decreases n,
{
    if n > 0 {
        lemma_be_bytes_len(v / 256, (n - 1) as nat);
    }
}

/// A big-endian byte sequence of width `n` denotes a value below `256^n`.
pub proof fn lemma_be_value_bound(s: Seq<u8>)
    ensures
        be_value(s) < pow(256, s.len()),
    decreases s.len(),
{
    reveal(pow);
    if s.len() == 0 {
    } else {
        lemma_be_value_bound(s.drop_last());
        assert(pow(256, s.len()) == 256 * pow(256, (s.len() - 1) as nat));
        assert(be_value(s.drop_last()) * 256 + s.last() < 256 * pow(
            256,
            (s.len() - 1) as nat,
        )) by (nonlinear_arith)
            requires
                be_value(s.drop_last()) < pow(256, (s.len() - 1) as nat),
                s.last() < 256,
        ;
    }
}

/// Decoding a big-endian encoding recovers the encoded value, as long as the
/// value fits in the asked width.
pub proof fn lemma_be_round_trip(v: nat, n: nat)
    requires
        v < pow(256, n),
    ensures
        be_value(be_bytes(v, n)) == v,
    decreases n,
{
    reveal(pow);
    if n == 0 {
    } else {
        let p = pow(256, (n - 1) as nat);
        lemma_pow_positive(256, (n - 1) as nat);
        lemma_multiply_divide_lt(v as int, 256, p);
        lemma_be_round_trip(v / 256, (n - 1) as nat);
        let s = be_bytes(v, n);
        assert(s.drop_last() == be_bytes(v / 256, (n - 1) as nat));
        assert(s.last() == (v % 256) as u8);
        lemma_fundamental_div_mod(v as int, 256);
    }
}

/// `256^16` is one more than the largest `u128`.
pub proof fn lemma_pow256_16()
    ensures
        pow(256, 16) == 0x100000000000000000000000000000000,
{
    vstd::arithmetic::power2::lemma_pow2(8);
    vstd::arithmetic::power2::lemma_pow2(128);
    vstd::arithmetic::power2::lemma2_to64();
    vstd::arithmetic::power2::lemma_pow2_adds(64, 64);
    vstd::arithmetic::power::lemma_pow_multiplies(2, 8, 16);
    assert(pow(256, 16) == pow(pow(2, 8), 16));
    assert(pow2(128) == 0x10000000000000000 * 0x10000000000000000);
}

/// Powers of 256 do not decrease with the exponent.
pub proof fn lemma_pow256_increases(e1: nat, e2: nat)
    requires
        e1 <= e2,
    ensures
        pow(256, e1) <= pow(256, e2),
{
    if e1 < e2 {
        vstd::arithmetic::power::lemma_pow_strictly_increases(256, e1, e2);
    }
}

/// Emit the `n`-byte big-endian encoding of `v`.
pub fn be_bytes_of(v: u128, n: usize) -> (r: Vec<u8>)
    requires
        n <= 16,
    ensures
        r@ == be_bytes(v as nat, n as nat),
        r@.len() == n,
    decreases n,
{
    proof {
        lemma_be_bytes_len(v as nat, n as nat);
    }
    if n == 0 {
        Vec::new()
    } else {
        let mut r = be_bytes_of(v / 256, n - 1);
        r.push((v % 256) as u8);
        r
    }
}

/// Read the value that the first `n` bytes of `s` denote in big-endian form.
pub fn be_value_of(s: &[u8], n: usize) -> (r: u128)
    requires
        n <= s@.len(),
        n <= 16,
    ensures
        r as nat == be_value(s@.take(n as int)),
{
    let mut acc: u128 = 0;
    let mut i: usize = 0;
    proof {
        reveal(pow);
        assert(s@.take(0) =~= Seq::<u8>::empty());
    }
    while i < n
        invariant
            0 <= i <= n <= 16,
            n <= s@.len(),
            acc as nat == be_value(s@.take(i as int)),
            (acc as nat) < pow(256, i as nat),
        decreases n - i,
    {
        proof {
            reveal(pow);
            let prefix = s@.take(i as int + 1);
            assert(prefix.drop_last() =~= s@.take(i as int));
            assert(prefix.last() == s@[i as int]);
            lemma_pow256_increases((i + 1) as nat, 16);
            lemma_pow256_16();
            assert((acc as nat) * 256 + s@[i as int] < 256 * pow(256, i as nat)) by (nonlinear_arith)
                requires
                    (acc as nat) < pow(256, i as nat),
                    s@[i as int] < 256,
            ;
            assert(pow(256, (i + 1) as nat) == 256 * pow(256, i as nat));
        }
        acc = acc * 256 + (s[i] as u128);
        i += 1;
    }
    proof {
        assert(s@.take(n as int) == s@.take(i as int));
    }
    acc
}

} // verus!
