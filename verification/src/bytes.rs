//! Little-endian byte encodings of unbounded integers, and their basic laws.

use vstd::prelude::*;
use vstd::arithmetic::power2::pow2;

verus! {

/// The integer denoted by a byte string read little endian.
pub open spec fn le_int(s: Seq<u8>) -> int
    decreases s.len(),
{
    if s.len() == 0 {
        0
    } else {
        s[0] + 256 * le_int(s.skip(1))
    }
}

/// The `n`-byte little-endian encoding of `v` (for `0 <= v < 256^n`).
pub open spec fn le_bytes(v: int, n: nat) -> Seq<u8>
    decreases n,
{
    if n == 0 {
        Seq::empty()
    } else {
        seq![(v % 256) as u8] + le_bytes(v / 256, (n - 1) as nat)
    }
}

/// `le_bytes` always produces exactly `n` bytes.
pub proof fn lemma_le_bytes_len(v: int, n: nat)
    ensures
        le_bytes(v, n).len() == n,
    decreases n,
{
    if n > 0 {
        lemma_le_bytes_len(v / 256, (n - 1) as nat);
    }
}

/// Encoding then decoding gives the value back, for values that fit.
pub proof fn lemma_le_bytes_int(v: int, n: nat)
    requires
        0 <= v < pow2(8 * n),
    ensures
        le_int(le_bytes(v, n)) == v,
    decreases n,
{
    if n == 0 {
        vstd::arithmetic::power2::lemma2_to64();
    } else {
        let rest = le_bytes(v / 256, (n - 1) as nat);
        assert(le_bytes(v, n) == seq![(v % 256) as u8] + rest);
        assert((seq![(v % 256) as u8] + rest).skip(1) == rest);
        assert(pow2(8 * n) == 256 * pow2(8 * (n - 1) as nat)) by {
            assert(8 * n == 8 + 8 * (n - 1) as nat);
            vstd::arithmetic::power2::lemma_pow2_adds(8, 8 * (n - 1) as nat);
            vstd::arithmetic::power2::lemma2_to64();
        }
        assert(v / 256 < pow2(8 * (n - 1) as nat)) by (nonlinear_arith)
            requires 0 <= v, v < 256 * pow2(8 * (n - 1) as nat),
        {
        }
        lemma_le_bytes_int(v / 256, (n - 1) as nat);
        assert(le_int(le_bytes(v, n)) == (v % 256) + 256 * (v / 256));
        assert(v == 256 * (v / 256) + v % 256);
    }
}

/// The value of `pow2(256)`, the bound on 32-byte little-endian values.
pub proof fn lemma_pow2_256()
    ensures
        pow2(256) == 0x10000000000000000000000000000000000000000000000000000000000000000int,
{
    vstd::arithmetic::power2::lemma2_to64_rest();
    vstd::arithmetic::power2::lemma_pow2_adds(64, 64);
    assert(pow2(128) == 0x100000000000000000000000000000000int);
    vstd::arithmetic::power2::lemma_pow2_adds(128, 128);
}

/// A byte string is the little-endian encoding of the integer it denotes:
/// `le_int` is injective among strings of one length.
pub proof fn lemma_le_int_bytes(s: Seq<u8>)
    ensures
        s == le_bytes(le_int(s), s.len()),
        0 <= le_int(s) < pow2(8 * s.len()),
    decreases s.len(),
{
    if s.len() == 0 {
        assert(s =~= Seq::<u8>::empty());
        vstd::arithmetic::power2::lemma2_to64();
    } else {
        let rest = s.skip(1);
        lemma_le_int_bytes(rest);
        let v = le_int(s);
        assert(v == s[0] + 256 * le_int(rest));
        assert(pow2(8 * s.len()) == 256 * pow2(8 * rest.len())) by {
            vstd::arithmetic::power2::lemma_pow2_adds(8, 8 * rest.len());
            vstd::arithmetic::power2::lemma2_to64();
        }
        assert(v % 256 == s[0] && v / 256 == le_int(rest)) by {
            vstd::arithmetic::div_mod::lemma_fundamental_div_mod_converse(
                v, 256, le_int(rest), s[0] as int);
        }
        assert(s =~= seq![(v % 256) as u8] + le_bytes(v / 256, (s.len() - 1) as nat));
    }
}

} // verus!
