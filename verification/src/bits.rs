//! Shifts and masks of the executable codecs, tied to the arithmetic of the
//! wire format.

use vstd::prelude::*;
use vstd::arithmetic::power2::{pow2, lemma2_to64, lemma2_to64_rest, lemma_pow2_pos};
use vstd::arithmetic::div_mod::{
    lemma_basic_div, lemma_div_by_self, lemma_div_is_ordered, lemma_div_pos_is_pos,
    lemma_multiply_divide_lt,
};
use vstd::arithmetic::mul::lemma_mul_inequality;
use vstd::bits::{
    lemma_u32_shr_is_div, lemma_u64_mul_pow2_le_max_iff_max_shr, lemma_u64_pow2_no_overflow,
    lemma_u64_shl_is_mul, lemma_u64_shr_is_div,
};
use vstd::std_specs::bits::{axiom_u8_leading_zeros, u8_leading_ones, u8_leading_zeros};
use crate::wire::{fixed_fits, leading_ones, varuint_extra, varuint_high_part, varuint_prefix};

verus! {

/// The powers of two that an encoding with `k` bytes after the first turns
/// on, as numbers: the bound `2^(7 (k + 1))` on the value, the weight
/// `2^(8 k)` of the first byte's low bits, and the size `2^(8 - k)` of the
/// room that the first byte leaves below its leading ones.
pub proof fn lemma_powers(k: nat)
    requires
        k < 8,
    ensures
        k == 0 ==> pow2(7 * (k + 1)) == 0x80 && pow2(8 * k) == 0x1 && pow2((8 - k) as nat)
            == 0x100,
        k == 1 ==> pow2(7 * (k + 1)) == 0x4000 && pow2(8 * k) == 0x100 && pow2((8 - k) as nat)
            == 0x80,
        k == 2 ==> pow2(7 * (k + 1)) == 0x20_0000 && pow2(8 * k) == 0x1_0000 && pow2(
            (8 - k) as nat,
        ) == 0x40,
        k == 3 ==> pow2(7 * (k + 1)) == 0x1000_0000 && pow2(8 * k) == 0x100_0000 && pow2(
            (8 - k) as nat,
        ) == 0x20,
        k == 4 ==> pow2(7 * (k + 1)) == 0x8_0000_0000 && pow2(8 * k) == 0x1_0000_0000 && pow2(
            (8 - k) as nat,
        ) == 0x10,
        k == 5 ==> pow2(7 * (k + 1)) == 0x400_0000_0000 && pow2(8 * k) == 0x100_0000_0000 && pow2(
            (8 - k) as nat,
        ) == 0x8,
        k == 6 ==> pow2(7 * (k + 1)) == 0x2_0000_0000_0000 && pow2(8 * k) == 0x1_0000_0000_0000
            && pow2((8 - k) as nat) == 0x4,
        k == 7 ==> pow2(7 * (k + 1)) == 0x100_0000_0000_0000 && pow2(8 * k)
            == 0x100_0000_0000_0000 && pow2((8 - k) as nat) == 0x2,
{
    lemma2_to64();
    lemma2_to64_rest();
}

/// The bound below which a number takes at most `k` bytes after the first,
/// as the encoder computes it by a shift.
pub proof fn lemma_length_bound_by_shift(k: u64)
    requires
        k < 8,
    ensures
        (1u64 << (7 * (k + 1))) == pow2((7 * (k + 1)) as nat),
{
    lemma_u64_pow2_no_overflow((7 * (k + 1)) as nat);
    lemma_u64_shl_is_mul(1, (7 * (k + 1)) as u64);
}

/// Byte `i` of a `u64`, taken by shift and mask, is byte `i` of its
/// little-endian form.
pub proof fn lemma_u64_byte(x: u64, i: u64)
    requires
        i < 8,
    ensures
        (x >> (8 * i)) & 0xFF == (x as nat / pow2((8 * i) as nat)) % 256,
{
    lemma_u64_shr_is_div(x, (8 * i) as u64);
    let v: u64 = x >> (8 * i);
    assert(v & 0xFF == v % 256) by (bit_vector);
}

/// Byte `i` of a `u32`, taken by shift and mask, is byte `i` of its
/// little-endian form.
pub proof fn lemma_u32_byte(x: u32, i: u32)
    requires
        i < 4,
    ensures
        (x >> (8 * i)) & 0xFF == (x as nat / pow2((8 * i) as nat)) % 256,
{
    lemma_u32_shr_is_div(x, (8 * i) as u32);
    let v: u32 = x >> (8 * i);
    assert(v & 0xFF == v % 256) by (bit_vector);
}

/// A `u32` fits in `l` bytes, `l` at most 4, exactly where nothing is left
/// of it above them.
pub proof fn lemma_u32_fits(x: u32, l: u32)
    requires
        l <= 4,
    ensures
        l == 4 ==> fixed_fits(x, l as nat),
        l < 4 ==> (fixed_fits(x, l as nat) <==> (x >> (8 * l)) == 0),
{
    lemma2_to64();
    if l < 4 {
        let d = pow2((8 * l) as nat);
        lemma_u32_shr_is_div(x, (8 * l) as u32);
        lemma_pow2_pos((8 * l) as nat);
        if x < d {
            lemma_basic_div(x as int, d as int);
        } else {
            lemma_div_is_ordered(d as int, x as int, d as int);
            lemma_div_by_self(d as int);
        }
    }
}

/// What is left of `x` above its `k` low bytes fits in the lower half of the
/// room that the first byte has below its `k` leading ones: under the zero
/// that ends them.
pub proof fn lemma_high_bits_fit(x: u64, k: nat)
    requires
        k < 8,
        k == varuint_extra(x),
    ensures
        0 <= 2 * (x as nat / pow2(8 * k)) < pow2((8 - k) as nat) <= 256,
{
    lemma_powers(k);
    lemma_div_pos_is_pos(x as int, pow2(8 * k) as int);
    // x < 2^(7 (k + 1)) = 2^(8 k) * 2^(7 - k).
    let half: int = pow2((8 - k) as nat) as int / 2;
    assert(pow2(7 * (k + 1)) == pow2(8 * k) * half);
    lemma_multiply_divide_lt(x as int, pow2(8 * k) as int, half);
}

/// The first byte as the encoder computes it, for fewer than 8 bytes to
/// follow.
pub proof fn lemma_prefix_by_shifts(x: u64, k: u64)
    requires
        k < 8,
        k == varuint_extra(x),
    ensures
        (1u64 << (8 - k)) <= 256,
        256 - (1u64 << (8 - k)) + (x >> (8 * k)) == varuint_prefix(x),
{
    lemma_powers(k as nat);
    lemma_high_bits_fit(x, k as nat);
    lemma_u64_shr_is_div(x, (8 * k) as u64);
    lemma_u64_shl_is_mul(1, (8 - k) as u64);
}

/// The count of leading ones that std computes is the one that the wire
/// format is defined with.
pub proof fn lemma_leading_ones_agree(b: u8)
    ensures
        u8_leading_ones(b) == leading_ones(b),
{
    let nb: u8 = !b;
    axiom_u8_leading_zeros(nb);
    let z: u8 = u8_leading_zeros(nb) as u8;
    assert(z < 8 ==> (nb >> ((7 - z) as u8)) & 1u8 != 0u8);
    assert(nb >> ((8 - z) as u8) == 0);
    assert((z == 0 <==> b < 0x80) && (z == 1 <==> 0x80 <= b < 0xC0) && (z == 2 <==> 0xC0 <= b
        < 0xE0) && (z == 3 <==> 0xE0 <= b < 0xF0) && (z == 4 <==> 0xF0 <= b < 0xF8) && (z == 5
        <==> 0xF8 <= b < 0xFC) && (z == 6 <==> 0xFC <= b < 0xFE) && (z == 7 <==> 0xFE <= b < 0xFF)
        && (z == 8 <==> b == 0xFF)) by (bit_vector)
        requires
            nb == !b,
            z <= 8,
            nb == 0 <==> z == 8,
            z < 8 ==> (nb >> ((7 - z) as u8)) & 1u8 != 0u8,
            nb >> ((8 - z) as u8) == 0,
    ;
}

/// A part shifted clear of `lo` joins it by `|` as it would by `+`.
pub proof fn lemma_or_is_sum(lo: u64, hi: u64, shift: u64)
    requires
        shift < 64,
        lo < pow2(shift as nat),
        hi * pow2(shift as nat) <= u64::MAX,
    ensures
        lo | (hi << shift) == lo + hi * pow2(shift as nat),
{
    lemma_u64_pow2_no_overflow(shift as nat);
    lemma_u64_shl_is_mul(hi, shift);
    lemma_u64_shl_is_mul(1, shift);
    lemma_u64_mul_pow2_le_max_iff_max_shr(hi, shift, u64::MAX);
    assert(lo | (hi << shift) == lo + (hi << shift)) by (bit_vector)
        requires
            shift < 64,
            lo < (1u64 << shift),
            hi <= (u64::MAX >> shift),
    ;
}

/// The decoder's step: a byte placed at position `i`, above a value of
/// fewer than `i` bytes.
pub proof fn lemma_or_byte(acc: u64, b: u8, i: u64)
    requires
        i < 8,
        acc < pow2((8 * i) as nat),
    ensures
        acc | ((b as u64) << (8 * i)) == acc + b as nat * pow2((8 * i) as nat),
{
    lemma_powers(i as nat);
    lemma_mul_inequality(b as int, 255, pow2((8 * i) as nat) as int);
    lemma_or_is_sum(acc, b as u64, (8 * i) as u64);
}

/// The low bits of a first byte `p` with `k < 8` leading ones, as the
/// decoder masks them out and places them above `k` bytes.
pub proof fn lemma_high_part_by_mask(acc: u64, p: u8, k: u64)
    requires
        k < 8,
        k == leading_ones(p),
        acc < pow2((8 * k) as nat),
    ensures
        acc | (((p & (0xFFu8 >> k)) as u64) << (8 * k)) == acc + varuint_high_part(p),
        acc + varuint_high_part(p) < 0x100_0000_0000_0000,
{
    lemma_powers(k as nat);
    let low: u8 = p & (0xFFu8 >> k);
    // The mask keeps `p` modulo 2^(8 - k), and the zero that ends the leading
    // ones keeps that below 2^(7 - k).
    assert(k < 8 ==> (0xFFu8 >> k) == (if k == 0 {
        0xFFu8
    } else if k == 1 {
        0x7Fu8
    } else if k == 2 {
        0x3Fu8
    } else if k == 3 {
        0x1Fu8
    } else if k == 4 {
        0x0Fu8
    } else if k == 5 {
        0x07u8
    } else if k == 6 {
        0x03u8
    } else {
        0x01u8
    })) by (bit_vector);
    assert(p & 0xFFu8 == p && p & 0x7Fu8 == p % 128 && p & 0x3Fu8 == p % 64 && p & 0x1Fu8
        == p % 32 && p & 0x0Fu8 == p % 16 && p & 0x07u8 == p % 8 && p & 0x03u8 == p % 4 && p
        & 0x01u8 == p % 2) by (bit_vector);
    assert(low == p as nat % pow2((8 - k) as nat));
    assert(low as nat * pow2((8 * k) as nat) + acc < 0x100_0000_0000_0000);
    lemma_or_is_sum(acc, low as u64, (8 * k) as u64);
}

} // verus!
