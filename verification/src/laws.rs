//! What the format promises as a whole: each encoding is read back as the
//! value it was written from, and the first byte of a variable-length
//! integer tells its length.

use vstd::prelude::*;
use vstd::arithmetic::power2::{
    pow2, lemma2_to64, lemma_pow2_pos, lemma_pow2_strictly_increases,
};
use vstd::arithmetic::div_mod::{
    lemma_fundamental_div_mod, lemma_fundamental_div_mod_converse, lemma_small_mod,
};
use vstd::arithmetic::mul::{lemma_mul_inequality, lemma_mul_is_commutative};
use crate::error::GPError;
use crate::wire::{
    fixed_encoding, fixed_value, frame_encoding, frame_payload, le_bytes, leading_ones,
    varuint_accepts, varuint_body, varuint_complete, varuint_encoding, varuint_extra,
    varuint_header_len, varuint_high_part, varuint_prefix, varuint_value,
};
use crate::endian::{lemma_le_value_bound, lemma_le_value_of_bytes, lemma_le_value_of_whole};
use crate::bits::{lemma_high_bits_fit, lemma_powers, lemma_u32_byte};
use crate::serializer::{GPSerializer, GPSerializerTrivial};
use crate::deserializer::{GPDeserializer, GPDeserializerTrivial};

verus! {

/// The length of a variable-length integer: one byte for a value below
/// `2^7`, and in general `k + 1` bytes, `k` being the least number with
/// `x < 2^(7 (k + 1))`, or 8 where no `k` below 8 will do. So the length is
/// between 1 and 9.
pub proof fn lemma_varuint_length(x: u64)
    ensures
        varuint_encoding(x).len() == varuint_extra(x) + 1,
        1 <= varuint_encoding(x).len() <= 9,
        x < 0x80 <==> varuint_encoding(x).len() == 1,
        varuint_extra(x) < 8 ==> x < pow2(7 * (varuint_extra(x) + 1)),
        forall|j: nat| j < varuint_extra(x) ==> x >= #[trigger] pow2(7 * (j + 1)),
{
    let k = varuint_extra(x);
    if k < 8 {
        lemma_powers(k);
    }
    assert forall|j: nat| j < k implies x >= #[trigger] pow2(7 * (j + 1)) by {
        lemma_powers(j);
    }
}

/// The first byte of an encoding tells how long the encoding is: in one of
/// at most 8 bytes it has one leading one-bit for each byte that follows, and
/// in one of 9 bytes it is `0xFF`.
pub proof fn lemma_prefix_describes_length(x: u64)
    ensures
        varuint_encoding(x)[0] == varuint_prefix(x),
        leading_ones(varuint_prefix(x)) == varuint_extra(x),
        varuint_header_len(varuint_encoding(x)[0]) == varuint_encoding(x).len(),
        varuint_encoding(x).len() <= 8 ==> leading_ones(varuint_encoding(x)[0])
            == varuint_encoding(x).len() - 1,
        varuint_encoding(x).len() == 9 ==> varuint_encoding(x)[0] == 0xFF,
{
    let k = varuint_extra(x);
    if k < 8 {
        // The prefix is 256 - 2^(8 - k) + x / 2^(8 k), and the last term is
        // under 2^(7 - k): that is the range of bytes with k leading ones.
        lemma_powers(k);
        lemma_high_bits_fit(x, k);
    }
}

/// A variable-length integer is read back as the value it was written
/// from, and its encoding is an input that the decoder is defined on.
pub proof fn lemma_varuint_round_trip(x: u64)
    ensures
        varuint_accepts(varuint_encoding(x)),
        varuint_complete(varuint_encoding(x)),
        varuint_value(varuint_encoding(x)) == x,
        <u64 as GPDeserializer>::gp_accepts(x.gp_encoding()),
        <u64 as GPDeserializer>::gp_decoded(x.gp_encoding()) == x,
{
    let k = varuint_extra(x);
    let e = varuint_encoding(x);
    lemma_prefix_describes_length(x);
    assert(varuint_body(e) =~= le_bytes(x as nat, k));
    lemma_le_value_of_bytes(x as nat, k);
    lemma_pow2_pos(8 * k);
    if k < 8 {
        // The first byte, modulo 2^(8 - k), is what is left of `x` above its
        // `k` low bytes.
        lemma_high_bits_fit(x, k);
        lemma_high_bits_of_prefix(x);
        lemma_fundamental_div_mod(x as int, pow2(8 * k) as int);
        lemma_mul_is_commutative(pow2(8 * k) as int, x as int / pow2(8 * k) as int);
    } else {
        lemma2_to64();
        lemma_small_mod(x as nat, pow2(64));
    }
}

/// Below its leading ones the first byte holds `x / 2^(8 k)`, `k` being
/// the number of bytes that follow.
proof fn lemma_high_bits_of_prefix(x: u64)
    requires
        varuint_extra(x) < 8,
    ensures
        varuint_prefix(x) as nat % pow2((8 - varuint_extra(x)) as nat) == x as nat / pow2(
            8 * varuint_extra(x),
        ),
        varuint_high_part(varuint_prefix(x)) == (x as nat / pow2(8 * varuint_extra(x))) * pow2(
            8 * varuint_extra(x),
        ),
{
    let k = varuint_extra(x);
    let m = pow2((8 - k) as nat);
    let q = x as nat / pow2(8 * k);
    lemma_powers(k);
    lemma_high_bits_fit(x, k);
    lemma_prefix_describes_length(x);
    // 256 - m is a multiple of m, so the prefix is q above a multiple of m.
    let ones: int = if k == 0 {
        0
    } else if k == 1 {
        1
    } else if k == 2 {
        3
    } else if k == 3 {
        7
    } else if k == 4 {
        15
    } else if k == 5 {
        31
    } else if k == 6 {
        63
    } else {
        127
    };
    assert(256 - m == ones * m);
    lemma_fundamental_div_mod_converse(varuint_prefix(x) as int, m as int, ones, q as int);
}

/// The decoder looks at no more than the integer that the first byte
/// announces: what follows a complete one does not change the value read.
pub proof fn lemma_varuint_ignores_rest(s: Seq<u8>, rest: Seq<u8>)
    requires
        varuint_complete(s),
    ensures
        varuint_complete(s + rest),
        varuint_value(s + rest) == varuint_value(s),
{
    assert(varuint_body(s + rest) =~= varuint_body(s));
}

/// Whatever the bytes, the value read from them fits in a `u64`.
pub proof fn lemma_varuint_value_fits(s: Seq<u8>)
    ensures
        varuint_value(s) <= u64::MAX,
{
    if s.len() > 0 {
        let k = leading_ones(s[0]);
        let body = varuint_body(s);
        lemma2_to64();
        lemma_le_value_bound(body);
        if body.len() < k {
            lemma_pow2_strictly_increases(8 * body.len(), 8 * k);
        }
        if k < 8 {
            // Under 2^(8 k) from the bytes, and under 2^(8 - k) * 2^(8 k)
            // from the first byte.
            let m = pow2((8 - k) as nat);
            lemma_powers(k);
            lemma_mul_inequality(s[0] as int % m as int, m as int, pow2(8 * k) as int);
        }
    }
}

/// A frame is read back as the payload it was written from, and is as long
/// as its header and its payload together.
pub proof fn lemma_frame_round_trip(p: Seq<u8>)
    requires
        p.len() <= u64::MAX,
    ensures
        frame_encoding(p).len() == varuint_encoding(p.len() as u64).len() + p.len(),
        frame_payload(frame_encoding(p)) == Ok::<Seq<u8>, GPError>(p),
{
    let n = p.len() as u64;
    let header = varuint_encoding(n);
    lemma_varuint_length(n);
    lemma_prefix_describes_length(n);
    lemma_varuint_round_trip(n);
    lemma_varuint_ignores_rest(header, p);
    assert((header + p).subrange(header.len() as int, (header + p).len() as int) =~= p);
}

/// A value that fits in `l` bytes is read back, at width `l`, as the value
/// it was written from.
pub proof fn lemma_fixed_round_trip(x: u32, l: nat)
    requires
        x < pow2(8 * l),
    ensures
        fixed_encoding(x, l).len() == l,
        fixed_value(fixed_encoding(x, l), l) == x,
        <u32 as GPDeserializerTrivial>::gp_trivial_decoded(x.gp_trivial_encoding(l), l) == x,
{
    let e = fixed_encoding(x, l);
    assert(e.subrange(0, l as int) =~= e);
    lemma_le_value_of_whole(x as nat, l);
}

/// Whatever the value, a fixed-width encoding is read back as the value's
/// low `8 l` bits.
pub proof fn lemma_fixed_truncates(x: u32, l: nat)
    ensures
        fixed_value(fixed_encoding(x, l), l) == x as nat % pow2(8 * l),
{
    let e = fixed_encoding(x, l);
    assert(e.subrange(0, l as int) =~= e);
    lemma_le_value_of_bytes(x as nat, l);
}

/// At width 4 the fixed-width encoding is the four bytes of the value, least
/// significant first, and nothing of the value is lost.
pub proof fn lemma_fixed_four_is_little_endian(x: u32)
    ensures
        fixed_encoding(x, 4) == seq![
            (x & 0xFF) as u8,
            ((x >> 8) & 0xFF) as u8,
            ((x >> 16) & 0xFF) as u8,
            ((x >> 24) & 0xFF) as u8,
        ],
        x == fixed_encoding(x, 4)[0] + 0x100 * fixed_encoding(x, 4)[1] + 0x1_0000 * fixed_encoding(
            x,
            4,
        )[2] + 0x100_0000 * fixed_encoding(x, 4)[3],
{
    let e = fixed_encoding(x, 4);
    lemma2_to64();
    lemma_u32_byte(x, 0);
    lemma_u32_byte(x, 1);
    lemma_u32_byte(x, 2);
    lemma_u32_byte(x, 3);
    assert(x >> 0 == x) by (bit_vector);
    assert(e =~= seq![
        (x & 0xFF) as u8,
        ((x >> 8) & 0xFF) as u8,
        ((x >> 16) & 0xFF) as u8,
        ((x >> 24) & 0xFF) as u8,
    ]);
    assert(x == (x & 0xFF) + 0x100 * ((x >> 8) & 0xFF) + 0x1_0000 * ((x >> 16) & 0xFF) + 0x100_0000
        * ((x >> 24) & 0xFF)) by (bit_vector);
}

} // verus!
