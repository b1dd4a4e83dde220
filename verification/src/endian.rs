//! Facts about little-endian bytes and the numbers they hold.

use vstd::prelude::*;
use vstd::arithmetic::power2::{pow2, lemma_pow2_pos, lemma_pow2_adds, lemma2_to64};
use vstd::arithmetic::div_mod::{lemma_mod_breakdown, lemma_small_mod};
use vstd::arithmetic::mul::{lemma_mul_is_commutative, lemma_mul_inequality};
use crate::wire::{le_bytes, le_value};

verus! {

/// `2^(8 (n + 1))` is 256 times `2^(8 n)`.
pub proof fn lemma_pow2_next_byte(n: nat)
    ensures
        pow2(8 * (n + 1)) == 256 * pow2(8 * n),
        pow2(8 * n) > 0,
{
    lemma2_to64();
    lemma_pow2_pos(8 * n);
    lemma_pow2_adds(8 * n, 8);
    lemma_mul_is_commutative(pow2(8 * n) as int, 256);
}

/// One byte more of `x` is one byte appended.
pub proof fn lemma_le_bytes_push(x: nat, n: nat)
    ensures
        le_bytes(x, n + 1) == le_bytes(x, n).push(((x / pow2(8 * n)) % 256) as u8),
{
    assert(le_bytes(x, n + 1) =~= le_bytes(x, n).push(((x / pow2(8 * n)) % 256) as u8));
}

/// A byte appended to `s` counts `2^(8 |s|)` times its value.
pub proof fn lemma_le_value_push(s: Seq<u8>, b: u8)
    ensures
        le_value(s.push(b)) == le_value(s) + b as nat * pow2(8 * s.len()),
{
    assert(s.push(b).drop_last() =~= s);
}

/// `n` bytes hold a number below `2^(8 n)`.
pub proof fn lemma_le_value_bound(s: Seq<u8>)
    ensures
        le_value(s) < pow2(8 * s.len()),
    decreases s.len(),
{
    if s.len() == 0 {
        lemma2_to64();
    } else {
        let n = (s.len() - 1) as nat;
        lemma_le_value_bound(s.drop_last());
        lemma_pow2_next_byte(n);
        lemma_mul_inequality(s.last() as int, 255, pow2(8 * n) as int);
    }
}

/// Reading back the `n` low bytes of `x` gives `x` modulo `2^(8 n)`.
pub proof fn lemma_le_value_of_bytes(x: nat, n: nat)
    ensures
        le_value(le_bytes(x, n)) == x % pow2(8 * n),
    decreases n,
{
    if n == 0 {
        lemma2_to64();
    } else {
        let m = (n - 1) as nat;
        let b = ((x / pow2(8 * m)) % 256) as u8;
        lemma_le_value_of_bytes(x, m);
        lemma_le_bytes_push(x, m);
        lemma_le_value_push(le_bytes(x, m), b);
        lemma_pow2_next_byte(m);
        lemma_mod_breakdown(x as int, pow2(8 * m) as int, 256);
        lemma_mul_is_commutative(pow2(8 * m) as int, 256);
        lemma_mul_is_commutative(pow2(8 * m) as int, b as int);
    }
}

/// Bytes that hold all of `x` give `x` back.
pub proof fn lemma_le_value_of_whole(x: nat, n: nat)
    requires
        x < pow2(8 * n),
    ensures
        le_value(le_bytes(x, n)) == x,
{
    lemma_le_value_of_bytes(x, n);
    lemma_small_mod(x, pow2(8 * n));
}

} // verus!
