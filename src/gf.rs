//! Ring laws of multiplication in `GF(2^128)`, proved from its shift-and-add definition.
use vstd::prelude::*;

use crate::block::{bit, gf_mul, gf_mul_upto, mul_x_pow, xtime};

verus! {

proof fn lemma_xtime_xor(a: u128, b: u128)
    ensures
        xtime(a ^ b) == xtime(a) ^ xtime(b),
{
    assert(((a ^ b) >> 127u128 == 1u128 ==> ((a ^ b) << 1u128) ^ 0x87u128 == (if a >> 127u128 == 1u128 { (a << 1u128) ^ 0x87u128 } else { a << 1u128 }) ^ (if b >> 127u128 == 1u128 { (b << 1u128) ^ 0x87u128 } else { b << 1u128 }))
        && ((a ^ b) >> 127u128 != 1u128 ==> (a ^ b) << 1u128 == (if a >> 127u128 == 1u128 { (a << 1u128) ^ 0x87u128 } else { a << 1u128 }) ^ (if b >> 127u128 == 1u128 { (b << 1u128) ^ 0x87u128 } else { b << 1u128 }))) by (bit_vector);
}

proof fn lemma_mul_x_pow_xor(a: u128, b: u128, i: nat)
    ensures
        mul_x_pow(a ^ b, i) == mul_x_pow(a, i) ^ mul_x_pow(b, i),
    decreases i,
{
    if i > 0 {
        lemma_mul_x_pow_xor(a, b, (i - 1) as nat);
        lemma_xtime_xor(mul_x_pow(a, (i - 1) as nat), mul_x_pow(b, (i - 1) as nat));
    }
}

/// Exclusive or is associative and commutative, with zero as identity and each
/// value its own inverse.
pub proof fn lemma_xor_facts()
    ensures
        forall|x: u128, y: u128, z: u128| #![auto] (x ^ y) ^ z == x ^ (y ^ z),
        forall|x: u128, y: u128| #![auto] x ^ y == y ^ x,
        forall|x: u128| #![auto] x ^ x == 0u128,
        forall|x: u128| #![auto] x ^ 0u128 == x,
{
    assert(forall|x: u128, y: u128, z: u128| #![auto] (x ^ y) ^ z == x ^ (y ^ z)) by (bit_vector);
    assert(forall|x: u128, y: u128| #![auto] x ^ y == y ^ x) by (bit_vector);
    assert(forall|x: u128| #![auto] x ^ x == 0u128) by (bit_vector);
    assert(forall|x: u128| #![auto] x ^ 0u128 == x) by (bit_vector);
}

proof fn lemma_upto_left(a: u128, b: u128, c: u128, n: nat)
    ensures
        gf_mul_upto(a ^ b, c, n) == gf_mul_upto(a, c, n) ^ gf_mul_upto(b, c, n),
    decreases n,
{
    lemma_xor_facts();
    if n > 0 {
        lemma_upto_left(a, b, c, (n - 1) as nat);
        lemma_mul_x_pow_xor(a, b, (n - 1) as nat);
    }
}

proof fn lemma_bit_xor(b: u128, c: u128, i: nat)
    requires
        i < 128,
    ensures
        bit(b ^ c, i) == (bit(b, i) != bit(c, i)),
{
    let s = i as u128;
    assert(((b ^ c) >> s) & 1u128 == 1u128 <==> (((b >> s) & 1u128 == 1u128) != ((c >> s) & 1u128 == 1u128))) by (bit_vector);
}

proof fn lemma_upto_right(a: u128, b: u128, c: u128, n: nat)
    requires
        n <= 128,
    ensures
        gf_mul_upto(a, b ^ c, n) == gf_mul_upto(a, b, n) ^ gf_mul_upto(a, c, n),
    decreases n,
{
    lemma_xor_facts();
    if n > 0 {
        lemma_upto_right(a, b, c, (n - 1) as nat);
        lemma_bit_xor(b, c, (n - 1) as nat);
    }
}

/// `(a ^ b) * c == a * c ^ b * c`.
pub proof fn lemma_gf_mul_distrib_left(a: u128, b: u128, c: u128)
    ensures
        gf_mul(a ^ b, c) == gf_mul(a, c) ^ gf_mul(b, c),
{
    lemma_upto_left(a, b, c, 128);
}

/// `a * (b ^ c) == a * b ^ a * c`.
pub proof fn lemma_gf_mul_distrib_right(a: u128, b: u128, c: u128)
    ensures
        gf_mul(a, b ^ c) == gf_mul(a, b) ^ gf_mul(a, c),
{
    lemma_upto_right(a, b, c, 128);
}

proof fn lemma_mul_x_pow_xtime(a: u128, i: nat)
    ensures
        mul_x_pow(xtime(a), i) == xtime(mul_x_pow(a, i)),
    decreases i,
{
    if i > 0 {
        lemma_mul_x_pow_xtime(a, (i - 1) as nat);
    }
}

proof fn lemma_upto_xtime(a: u128, b: u128, n: nat)
    ensures
        gf_mul_upto(xtime(a), b, n) == xtime(gf_mul_upto(a, b, n)),
    decreases n,
{
    if n > 0 {
        lemma_upto_xtime(a, b, (n - 1) as nat);
        lemma_mul_x_pow_xtime(a, (n - 1) as nat);
        lemma_xtime_xor(gf_mul_upto(a, b, (n - 1) as nat), mul_x_pow(a, (n - 1) as nat));
    } else {
        assert(xtime(0u128) == 0u128) by (bit_vector);
    }
}

proof fn lemma_mul_shift(a: u128, b: u128, j: nat)
    ensures
        gf_mul(mul_x_pow(a, j), b) == mul_x_pow(gf_mul(a, b), j),
    decreases j,
{
    if j > 0 {
        lemma_mul_shift(a, b, (j - 1) as nat);
        lemma_upto_xtime(mul_x_pow(a, (j - 1) as nat), b, 128);
    }
}

proof fn lemma_swap_upto(a: u128, b: u128, c: u128, n: nat)
    ensures
        gf_mul(gf_mul_upto(a, b, n), c) == gf_mul_upto(gf_mul(a, c), b, n),
    decreases n,
{
    lemma_xor_facts();
    if n > 0 {
        let k = (n - 1) as nat;
        lemma_swap_upto(a, b, c, k);
        if bit(b, k) {
            lemma_gf_mul_distrib_left(gf_mul_upto(a, b, k), mul_x_pow(a, k), c);
            lemma_mul_shift(a, c, k);
        }
    } else {
        lemma_zero_mul(c);
    }
}

/// `0 * c == 0`.
pub proof fn lemma_zero_mul(c: u128)
    ensures
        gf_mul(0, c) == 0,
{
    lemma_gf_mul_distrib_left(0, 0, c);
    lemma_xor_facts();
}

/// `a * 0 == 0`.
pub proof fn lemma_mul_zero(a: u128)
    ensures
        gf_mul(a, 0) == 0,
{
    lemma_gf_mul_distrib_right(a, 0, 0);
    lemma_xor_facts();
}

/// The low `n` bits of `b`.
spec fn low_bits(b: u128, n: nat) -> u128 {
    if n >= 128 {
        b
    } else {
        b & (((1u128 << (n as u128)) - 1u128) as u128)
    }
}

proof fn lemma_one_pow(i: nat)
    requires
        i < 128,
    ensures
        mul_x_pow(1, i) == 1u128 << (i as u128),
    decreases i,
{
    if i > 0 {
        lemma_one_pow((i - 1) as nat);
        let s = (i - 1) as u128;
        assert(s < 127u128 ==> ((1u128 << s) >> 127u128 != 1u128 && (1u128 << s) << 1u128 == 1u128 << ((s + 1u128) as u128))) by (bit_vector);
    } else {
        assert(1u128 << 0u128 == 1u128) by (bit_vector);
    }
}

proof fn lemma_one_upto(b: u128, n: nat)
    requires
        n <= 128,
    ensures
        gf_mul_upto(1, b, n) == low_bits(b, n),
    decreases n,
{
    lemma_xor_facts();
    if n > 0 {
        let k = (n - 1) as nat;
        lemma_one_upto(b, k);
        lemma_one_pow(k);
        let s = k as u128;
        assert(low_bits(b, k) == b & (((1u128 << s) - 1u128) as u128));
        assert(bit(b, k) == ((b >> s) & 1u128 == 1u128));
        assert(n < 128 ==> low_bits(b, n) == b & (((1u128 << ((s + 1u128) as u128)) - 1u128) as u128));
        if n < 128 {
            assert(s < 127u128 ==> (b & (((1u128 << s) - 1u128) as u128)) ^ (if (b >> s) & 1u128 == 1u128 { 1u128 << s } else { 0u128 })
                == b & (((1u128 << ((s + 1u128) as u128)) - 1u128) as u128)) by (bit_vector);
        } else {
            assert(s == 127u128 ==> (b & (((1u128 << s) - 1u128) as u128)) ^ (if (b >> s) & 1u128 == 1u128 { 1u128 << s } else { 0u128 }) == b) by (bit_vector);
        }
    } else {
        assert(b & (((1u128 << 0u128) - 1u128) as u128) == 0u128) by (bit_vector);
    }
}

/// `1 * b == b`.
pub proof fn lemma_one_mul(b: u128)
    ensures
        gf_mul(1, b) == b,
{
    lemma_one_upto(b, 128);
}

/// Multiplication commutes.
pub proof fn lemma_gf_mul_comm(a: u128, b: u128)
    ensures
        gf_mul(a, b) == gf_mul(b, a),
{
    lemma_swap_upto(1, a, b, 128);
    lemma_one_mul(a);
    lemma_one_mul(b);
}

/// Multiplication associates.
pub proof fn lemma_gf_mul_assoc(a: u128, b: u128, c: u128)
    ensures
        gf_mul(gf_mul(a, b), c) == gf_mul(a, gf_mul(b, c)),
{
    lemma_swap_upto(a, b, c, 128);
    lemma_swap_upto(b, c, a, 128);
    lemma_gf_mul_comm(a, gf_mul(b, c));
    lemma_gf_mul_comm(b, a);
    lemma_gf_mul_comm(a, c);
    lemma_swap_upto(a, c, b, 128);
}

} // verus!
