//! Decoders: bytes to values.

use vstd::prelude::*;
use vstd::arithmetic::power2::{lemma2_to64, lemma_pow2_strictly_increases};
use vstd::slice::{slice_subrange, slice_to_vec};
use crate::error::GPError;
use crate::wire::{
    fixed_max_width, fixed_value, frame_payload, le_value, varuint_accepts, varuint_body,
    varuint_complete, varuint_header_len, varuint_value,
};
use crate::endian::{lemma_le_value_bound, lemma_le_value_push};
use crate::bits::{lemma_high_part_by_mask, lemma_leading_ones_agree, lemma_or_byte};

verus! {

/// A value that can be read from bytes.
pub trait GPDeserializer: View {
    /// The inputs that the decoder is defined on.
    spec fn gp_accepts(serialized: Seq<u8>) -> bool;

    /// The value that the bytes stand for.
    spec fn gp_decoded(serialized: Seq<u8>) -> Self::V;

    /// Replaces the value by the one that `serialized` stands for.
    fn gp_deserialize(&mut self, serialized: &[u8])
        requires
            Self::gp_accepts(serialized@),
        ensures
            final(self)@ == Self::gp_decoded(serialized@),
    ;
}

/// A value that can be read from a frame.
pub trait GPDeserializerWithLength: GPDeserializer + Sized {
    /// Reads the value from a frame: a variable-length integer at the front
    /// of `serialized`, then a payload of exactly that many bytes, which the
    /// value is decoded from. Where the header is cut short or the payload's
    /// length is not the one announced, reports so and leaves the value as it
    /// was.
    fn gp_deserialize_with_length(&mut self, serialized: &[u8]) -> (r: Result<(), GPError>)
        requires
            frame_payload(serialized@) matches Ok(p) ==> Self::gp_accepts(p),
        ensures
            match frame_payload(serialized@) {
                Ok(p) => r is Ok && final(self)@ == Self::gp_decoded(p),
                Err(e) => r == Err::<(), GPError>(e) && *final(self) == *old(self),
            },
    ;
}

/// A value that can be read from a fixed number of bytes.
pub trait GPDeserializerTrivial: View {
    /// The largest width, in bytes, that a value of this type is read from.
    spec fn gp_max_width() -> nat;

    /// The value that `serialized` stands for at width `l`.
    spec fn gp_trivial_decoded(serialized: Seq<u8>, l: nat) -> Self::V;

    /// Replaces the value by the one in the first `l` bytes of `serialized`,
    /// least significant byte first. A byte that is not there counts as 0, and
    /// bytes past the first `l` are not looked at.
    fn gp_deserialize_trivial(&mut self, serialized: &[u8], l: u8)
        requires
            l <= Self::gp_max_width(),
        ensures
            final(self)@ == Self::gp_trivial_decoded(serialized@, l as nat),
    ;
}

impl GPDeserializer for Vec<u8> {
    open spec fn gp_accepts(serialized: Seq<u8>) -> bool {
        true
    }

    /// A byte string is read as it is.
    open spec fn gp_decoded(serialized: Seq<u8>) -> Seq<u8> {
        serialized
    }

    fn gp_deserialize(&mut self, serialized: &[u8]) {
        *self = slice_to_vec(serialized);
    }
}

/// Reads up to `count` bytes of `serialized`, starting at `from`, as a
/// little-endian number: as many as `serialized` holds.
fn read_le(serialized: &[u8], from: usize, count: usize) -> (value: u64)
    requires
        from <= serialized@.len(),
        count <= 8,
    ensures
        from + count <= serialized@.len() ==> value == le_value(
            serialized@.subrange(from as int, from + count),
        ),
        from + count > serialized@.len() ==> value == le_value(
            serialized@.subrange(from as int, serialized@.len() as int),
        ),
{
    let n: usize = serialized.len();
    let mut value: u64 = 0;
    let mut i: usize = 0;
    assert(serialized@.subrange(from as int, from + 0) =~= Seq::<u8>::empty());
    while i < count && i < n - from
        invariant
            n == serialized@.len(),
            from <= n,
            i <= count <= 8,
            i <= n - from,
            value == le_value(serialized@.subrange(from as int, from + i)),
        decreases count - i,
    {
        let ghost read = serialized@.subrange(from as int, from + i);
        proof {
            lemma_le_value_bound(read);
            lemma_or_byte(value, serialized@[from + i], i as u64);
            lemma_le_value_push(read, serialized@[from + i]);
            assert(read.push(serialized@[from + i]) =~= serialized@.subrange(
                from as int,
                from + i + 1,
            ));
        }
        value = value | ((serialized[from + i] as u64) << (8 * (i as u64)));
        i += 1;
    }
    value
}

/// Reads the variable-length integer that `serialized` starts with, as far
/// as `serialized` holds it.
fn read_varuint(serialized: &[u8]) -> (value: u64)
    ensures
        value == varuint_value(serialized@),
{
    if serialized.len() == 0 {
        return 0;
    }
    let prefix: u8 = serialized[0];
    proof {
        lemma_leading_ones_agree(prefix);
    }
    let l: usize = prefix.leading_ones() as usize;
    // The next `l` bytes, least significant first.
    let mut value: u64 = read_le(serialized, 1, l);
    if l < 8 {
        proof {
            lemma_le_value_bound(varuint_body(serialized@));
            if varuint_body(serialized@).len() < l {
                lemma_pow2_strictly_increases(
                    8 * varuint_body(serialized@).len(),
                    8 * l as nat,
                );
            }
            lemma_high_part_by_mask(value, prefix, l as u64);
        }
        // The prefix without its leading ones goes above them.
        let low: u8 = prefix & (0xFFu8 >> l);
        value = value | ((low as u64) << (8 * (l as u64)));
    }
    value
}

impl GPDeserializer for u64 {
    /// More than eight bytes must start with `0xFF`.
    open spec fn gp_accepts(serialized: Seq<u8>) -> bool {
        varuint_accepts(serialized)
    }

    /// A `u64` is read as a variable-length integer.
    open spec fn gp_decoded(serialized: Seq<u8>) -> u64 {
        varuint_value(serialized) as u64
    }

    fn gp_deserialize(&mut self, serialized: &[u8]) {
        *self = read_varuint(serialized);
    }
}

/// Reads one variable-length integer from the front of `serialized` and
/// says how many bytes it took: the first byte and as many more as that
/// byte has leading ones. Fails where `serialized` is empty or ends before
/// the integer does. What follows the integer is not looked at.
pub fn gp_deserialize_prefix(serialized: &[u8]) -> (r: Result<(u64, usize), GPError>)
    ensures
        r is Ok <==> varuint_complete(serialized@),
        r matches Ok((value, used)) ==> value == varuint_value(serialized@) && used
            == varuint_header_len(serialized@[0]),
        r matches Err(e) ==> e == GPError::MalformedHeader,
{
    if serialized.len() == 0 {
        return Err(GPError::MalformedHeader);
    }
    proof {
        lemma_leading_ones_agree(serialized@[0]);
    }
    let used: usize = serialized[0].leading_ones() as usize + 1;
    if serialized.len() < used {
        return Err(GPError::MalformedHeader);
    }
    Ok((read_varuint(serialized), used))
}

impl GPDeserializerWithLength for Vec<u8> {
    fn gp_deserialize_with_length(&mut self, serialized: &[u8]) -> (r: Result<(), GPError>) {
        match gp_deserialize_prefix(serialized) {
            Err(e) => Err(e),
            Ok((len, used)) => {
                let rest: usize = serialized.len() - used;
                if rest as u64 != len {
                    return Err(GPError::LengthMismatch);
                }
                self.gp_deserialize(slice_subrange(serialized, used, serialized.len()));
                Ok(())
            },
        }
    }
}

impl GPDeserializerTrivial for u32 {
    open spec fn gp_max_width() -> nat {
        fixed_max_width()
    }

    /// A `u32` is read least significant byte first.
    open spec fn gp_trivial_decoded(serialized: Seq<u8>, l: nat) -> u32 {
        fixed_value(serialized, l) as u32
    }

    fn gp_deserialize_trivial(&mut self, serialized: &[u8], l: u8) {
        let value: u64 = read_le(serialized, 0, l as usize);
        proof {
            let read = if l <= serialized@.len() {
                serialized@.subrange(0, l as int)
            } else {
                serialized@
            };
            assert(serialized@.subrange(0, serialized@.len() as int) =~= serialized@);
            lemma_le_value_bound(read);
            lemma2_to64();
            if read.len() < 4 {
                lemma_pow2_strictly_increases(8 * read.len(), 32);
            }
        }
        *self = value as u32;
    }
}

} // verus!
