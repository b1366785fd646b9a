//! Arithmetic modulo 2^64, the arithmetic of a wrapping 64-bit unsigned word.
use vstd::arithmetic::div_mod::{
    lemma_add_mod_noop_right, lemma_mod_mod, lemma_mul_mod_noop_left, lemma_small_mod,
    lemma_truncate_middle,
};
use vstd::prelude::*;

verus! {

/// The number of distinct values of a 64-bit word.
pub open spec fn word_modulus() -> int {
    0x1_0000_0000_0000_0000
}

/// The word that wrapping arithmetic leaves for the mathematical value `v`:
/// `v` reduced modulo 2^64.
pub open spec fn wrap(v: int) -> u64 {
    (v % word_modulus()) as u64
}

/// `wrap(v)` is `v mod 2^64`, as an integer.
pub proof fn lemma_wrap_value(v: int)
    ensures
        wrap(v) as int == v % word_modulus(),
        0 <= v % word_modulus() < word_modulus(),
{
}

/// A value that already fits in a word is left as it is.
pub proof fn lemma_wrap_small(v: int)
    requires
        0 <= v < word_modulus(),
    ensures
        wrap(v) as int == v,
{
    lemma_small_mod(v as nat, word_modulus() as nat);
}

/// Reducing a summand first does not change the wrapped sum.
pub proof fn lemma_wrap_add(a: int, b: int)
    ensures
        wrap(wrap(a) + b) == wrap(a + b),
{
    lemma_wrap_value(a);
    lemma_add_mod_noop_right(b, a, word_modulus());
}

/// Reducing a factor first does not change the wrapped product.
pub proof fn lemma_wrap_mul(a: int, b: int)
    ensures
        wrap(wrap(a) * b) == wrap(a * b),
{
    lemma_wrap_value(a);
    lemma_mul_mod_noop_left(a, b, word_modulus());
}

/// Reducing a subtrahend first does not change the wrapped difference.
pub proof fn lemma_wrap_sub(a: int, b: int)
    ensures
        wrap(a - wrap(b)) == wrap(a - b),
{
    lemma_wrap_mul(b, -1);
    lemma_wrap_add(wrap(b) * -1, a);
    lemma_wrap_add(-b, a);
}

/// The low byte of the wrapped value is `v mod 256`.
pub proof fn lemma_wrap_low_byte(v: int)
    ensures
        wrap(v) as int % 256 == v % 256,
{
    lemma_wrap_value(v);
    lemma_mod_mod(v, 256, 0x100_0000_0000_0000);
}

/// `u64::wrapping_add` is addition modulo 2^64.
pub proof fn lemma_wrapping_add(a: u64, b: u64)
    ensures
        a.wrapping_add(b) == wrap(a + b),
{
    if a + b < word_modulus() {
        lemma_wrap_small(a + b);
    } else {
        lemma_wrap_small(a + b - word_modulus());
        lemma_wrap_add(a + b - word_modulus(), word_modulus());
        assert(wrap(word_modulus()) == 0);
    }
}

/// `u64::wrapping_sub` is subtraction modulo 2^64.
pub proof fn lemma_wrapping_sub(a: u64, b: u64)
    ensures
        a.wrapping_sub(b) == wrap(a - b),
{
    if a - b >= 0 {
        lemma_wrap_small(a - b);
    } else {
        lemma_wrap_small(a - b + word_modulus());
        lemma_wrap_add(a - b + word_modulus(), -word_modulus());
        assert(wrap(-word_modulus()) == 0);
    }
}

/// `u64::wrapping_mul` is multiplication modulo 2^64.
pub proof fn lemma_wrapping_mul(a: u64, b: u64)
    ensures
        a.wrapping_mul(b) == wrap(a * b),
{
}

/// Shifting a word left by 1, 3 or 11 bits multiplies it by 2, 8 or 2048,
/// modulo 2^64.
pub proof fn lemma_shl_wraps(v: u64)
    ensures
        v << 1u64 == wrap(v * 2),
        v << 3u64 == wrap(v * 8),
        v << 11u64 == wrap(v * 2048),
{
    assert(v << 1u64 == (v % 0x8000_0000_0000_0000) * 2) by (bit_vector);
    assert(v << 3u64 == (v % 0x2000_0000_0000_0000) * 8) by (bit_vector);
    assert(v << 11u64 == (v % 0x20_0000_0000_0000) * 2048) by (bit_vector);
    lemma_truncate_middle(v as int, 2, 0x8000_0000_0000_0000);
    lemma_truncate_middle(v as int, 8, 0x2000_0000_0000_0000);
    lemma_truncate_middle(v as int, 2048, 0x20_0000_0000_0000);
    lemma_wrap_small((v % 0x8000_0000_0000_0000) * 2);
    lemma_wrap_small((v % 0x2000_0000_0000_0000) * 8);
    lemma_wrap_small((v % 0x20_0000_0000_0000) * 2048);
}

} // verus!
