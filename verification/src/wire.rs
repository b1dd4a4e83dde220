//! The wire format, stated over integers and sequences of bytes.
//!
//! Every contract of the executable codecs is written in terms of the
//! functions of this module.

use vstd::prelude::*;
use vstd::arithmetic::power2::pow2;
use crate::error::GPError;

verus! {

/// The number of consecutive one-bits at the most significant end of `b`,
/// from 0 (the top bit is clear) to 8 (`b` is `0xFF`).
pub open spec fn leading_ones(b: u8) -> nat {
    if b < 0x80 {
        0
    } else if b < 0xC0 {
        1
    } else if b < 0xE0 {
        2
    } else if b < 0xF0 {
        3
    } else if b < 0xF8 {
        4
    } else if b < 0xFC {
        5
    } else if b < 0xFE {
        6
    } else if b < 0xFF {
        7
    } else {
        8
    }
}

/// The `n` low bytes of `x`, least significant first: byte `i` holds
/// `(x / 2^(8 i)) mod 256`.
pub open spec fn le_bytes(x: nat, n: nat) -> Seq<u8> {
    Seq::new(n, |i: int| ((x / pow2((8 * i) as nat)) % 256) as u8)
}

/// The number that `s` holds least significant byte first: the sum of
/// `s[i] * 2^(8 i)` over all of `s`.
pub open spec fn le_value(s: Seq<u8>) -> nat
    decreases s.len(),
{
    if s.len() == 0 {
        0
    } else {
        le_value(s.drop_last()) + s.last() as nat * pow2((8 * (s.len() - 1)) as nat)
    }
}

/// How many bytes follow the first byte in the variable-length encoding of
/// `x`: the least `k` with `x < 2^(7 (k + 1))`, and 8 where there is none
/// below 8.
pub open spec fn varuint_extra(x: u64) -> nat {
    if x < 0x80 {
        0
    } else if x < 0x4000 {
        1
    } else if x < 0x20_0000 {
        2
    } else if x < 0x1000_0000 {
        3
    } else if x < 0x8_0000_0000 {
        4
    } else if x < 0x400_0000_0000 {
        5
    } else if x < 0x2_0000_0000_0000 {
        6
    } else if x < 0x100_0000_0000_0000 {
        7
    } else {
        8
    }
}

/// The first byte of the variable-length encoding of `x`. With `k` bytes to
/// follow, `k < 8`, its `k` highest bits are set, the next one is clear and
/// the rest hold `x / 2^(8 k)`; with 8 bytes to follow it is `0xFF`.
pub open spec fn varuint_prefix(x: u64) -> u8 {
    let k = varuint_extra(x);
    if k < 8 {
        (256 - pow2((8 - k) as nat) + x as nat / pow2(8 * k)) as u8
    } else {
        0xFF
    }
}

/// The variable-length encoding of `x`: the first byte, then the low
/// `varuint_extra(x)` bytes of `x`, least significant first.
pub open spec fn varuint_encoding(x: u64) -> Seq<u8> {
    seq![varuint_prefix(x)] + le_bytes(x as nat, varuint_extra(x))
}

/// The number of bytes that an encoding starting with `p` takes, `p`
/// included.
pub open spec fn varuint_header_len(p: u8) -> nat {
    leading_ones(p) + 1
}

/// What a first byte `p` with `k` leading ones adds to the decoded value: its
/// bits below the leading ones, placed above the `k` bytes that follow.
pub open spec fn varuint_high_part(p: u8) -> nat {
    let k = leading_ones(p);
    if k < 8 {
        (p as nat % pow2((8 - k) as nat)) * pow2(8 * k)
    } else {
        0
    }
}

/// The bytes of `s` after the first that belong to the encoding which the
/// first byte announces, as far as `s` holds them.
pub open spec fn varuint_body(s: Seq<u8>) -> Seq<u8>
    recommends
        s.len() > 0,
{
    let k = leading_ones(s[0]);
    if 1 + k <= s.len() {
        s.subrange(1, 1 + k as int)
    } else {
        s.subrange(1, s.len() as int)
    }
}

/// The number that the lenient decoder reads from `s`. Nothing gives 0.
/// Otherwise the first byte says how many bytes follow; those of them that
/// `s` holds are read least significant first, and the first byte's low bits
/// go above them. Bytes past the announced ones are not looked at.
pub open spec fn varuint_value(s: Seq<u8>) -> nat {
    if s.len() == 0 {
        0
    } else {
        le_value(varuint_body(s)) + varuint_high_part(s[0])
    }
}

/// The inputs that the lenient decoder is defined on: one of more than
/// eight bytes must start with `0xFF`.
pub open spec fn varuint_accepts(s: Seq<u8>) -> bool {
    s.len() > 8 ==> s[0] == 0xFF
}

/// Whether `s` holds all of the variable-length integer that its first byte
/// announces.
pub open spec fn varuint_complete(s: Seq<u8>) -> bool {
    s.len() > 0 && varuint_header_len(s[0]) <= s.len()
}

/// The widest fixed-width encoding of a `u32`, in bytes.
pub open spec fn fixed_max_width() -> nat {
    4
}

/// The fixed-width encoding of `x` in `l` bytes: its low `8 l` bits, least
/// significant byte first. Higher bits of `x` are dropped.
pub open spec fn fixed_encoding(x: u32, l: nat) -> Seq<u8> {
    le_bytes(x as nat, l)
}

/// Whether `x` fits in `l` bytes.
pub open spec fn fixed_fits(x: u32, l: nat) -> bool {
    x < pow2(8 * l)
}

/// The number that the fixed-width decoder reads from `s` at width `l`: the
/// sum of `s[i] * 2^(8 i)` for `i < l`, a byte that `s` lacks counting as 0.
pub open spec fn fixed_value(s: Seq<u8>, l: nat) -> nat {
    if l <= s.len() {
        le_value(s.subrange(0, l as int))
    } else {
        le_value(s)
    }
}

/// The frame of a payload `p`: the variable-length encoding of its length,
/// then `p` itself.
pub open spec fn frame_encoding(p: Seq<u8>) -> Seq<u8>
    recommends
        p.len() <= u64::MAX,
{
    varuint_encoding(p.len() as u64) + p
}

/// What the frame decoder makes of `s`. The header is the variable-length
/// integer at the front of `s`; all that follows it is the payload, and must
/// be exactly as long as the header says.
pub open spec fn frame_payload(s: Seq<u8>) -> Result<Seq<u8>, GPError> {
    if !varuint_complete(s) {
        Err(GPError::MalformedHeader)
    } else {
        let h = varuint_header_len(s[0]);
        if s.len() - h != varuint_value(s) {
            Err(GPError::LengthMismatch)
        } else {
            Ok(s.subrange(h as int, s.len() as int))
        }
    }
}

} // verus!
