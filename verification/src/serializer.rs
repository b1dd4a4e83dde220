//! Encoders: values to bytes.

use vstd::prelude::*;
use vstd::slice::slice_to_vec;
use crate::error::GPError;
use crate::wire::{
    fixed_encoding, fixed_fits, fixed_max_width, frame_encoding, le_bytes, varuint_encoding,
    varuint_extra, varuint_prefix,
};
use crate::endian::lemma_le_bytes_push;
use crate::bits::{
    lemma_length_bound_by_shift, lemma_powers, lemma_prefix_by_shifts, lemma_u32_byte,
    lemma_u32_fits, lemma_u64_byte,
};

verus! {

/// A value with a canonical encoding as bytes.
pub trait GPSerializer {
    /// The bytes that the value is written as.
    spec fn gp_encoding(&self) -> Seq<u8>;

    /// Writes the value out as a fresh vector of bytes.
    fn gp_serialize(&self) -> (bytes: Vec<u8>)
        ensures
            bytes@ == self.gp_encoding(),
    ;
}

/// A value with a fixed-width encoding, the width chosen by the caller.
pub trait GPSerializerTrivial {
    /// The largest width, in bytes, that a value of this type is written in.
    spec fn gp_max_width() -> nat;

    /// The bytes that the value is written as at width `l`.
    spec fn gp_trivial_encoding(&self, l: nat) -> Seq<u8>;

    /// Writes the value out in exactly `l` bytes. What does not fit in `l`
    /// bytes is dropped.
    fn gp_serialize_trivial(&self, l: u8) -> (bytes: Vec<u8>)
        requires
            l <= Self::gp_max_width(),
        ensures
            bytes@ == self.gp_trivial_encoding(l as nat),
    ;
}

/// A value that can be written, with its length in front, as a frame.
pub trait GPSerializerWithLength: GPSerializer {
    /// Writes the value as a frame: the length of its encoding as a
    /// variable-length integer, then the encoding.
    fn gp_serialize_with_length(&self) -> (bytes: Vec<u8>)
        ensures
            bytes@ == frame_encoding(self.gp_encoding()),
    ;
}

impl GPSerializer for &[u8] {
    /// A byte string is written as it is.
    open spec fn gp_encoding(&self) -> Seq<u8> {
        self@
    }

    fn gp_serialize(&self) -> (bytes: Vec<u8>) {
        slice_to_vec(*self)
    }
}

impl GPSerializer for Vec<u8> {
    /// A byte string is written as it is.
    open spec fn gp_encoding(&self) -> Seq<u8> {
        self@
    }

    fn gp_serialize(&self) -> (bytes: Vec<u8>) {
        self.clone()
    }
}

/// Writes `payload` as a frame: its length, then its bytes.
fn frame(payload: &[u8]) -> (bytes: Vec<u8>)
    ensures
        bytes@ == frame_encoding(payload@),
{
    let len: u64 = payload.len() as u64;
    let mut bytes: Vec<u8> = len.gp_serialize();
    let ghost header = bytes@;
    let mut i: usize = 0;
    while i < payload.len()
        invariant
            i <= payload.len(),
            bytes@ == header + payload@.subrange(0, i as int),
        decreases payload.len() - i,
    {
        bytes.push(payload[i]);
        i += 1;
        assert(bytes@ =~= header + payload@.subrange(0, i as int));
    }
    assert(payload@.subrange(0, i as int) =~= payload@);
    bytes
}

impl GPSerializerWithLength for &[u8] {
    fn gp_serialize_with_length(&self) -> (bytes: Vec<u8>) {
        frame(*self)
    }
}

impl GPSerializerWithLength for Vec<u8> {
    fn gp_serialize_with_length(&self) -> (bytes: Vec<u8>) {
        frame(self.as_slice())
    }
}

impl GPSerializer for u64 {
    /// A `u64` is written as a variable-length integer.
    open spec fn gp_encoding(&self) -> Seq<u8> {
        varuint_encoding(*self)
    }

    fn gp_serialize(&self) -> (bytes: Vec<u8>) {
        let x: u64 = *self;
        let mut l: u64 = 0;
        while l < 8 && x >= (1u64 << (7 * (l + 1)))
            invariant
                l <= 8,
                l <= varuint_extra(x),
            decreases 8 - l,
        {
            proof {
                lemma_length_bound_by_shift(l);
                lemma_powers(l as nat);
            }
            l += 1;
        }
        proof {
            if l < 8 {
                lemma_length_bound_by_shift(l);
                lemma_powers(l as nat);
            }
        }
        assert(l == varuint_extra(x));

        let mut bytes: Vec<u8> = Vec::new();
        if l < 8 {
            proof {
                lemma_prefix_by_shifts(x, l);
            }
            let prefix: u8 = ((256 - (1u64 << (8 - l))) + (x >> (8 * l))) as u8;
            bytes.push(prefix);
        } else {
            bytes.push(255);
        }
        assert(bytes@ =~= seq![varuint_prefix(x)] + le_bytes(x as nat, 0));

        // The low bytes of the value, least significant first.
        let mut i: u64 = 0;
        while i < l
            invariant
                i <= l <= 8,
                bytes@ == seq![varuint_prefix(x)] + le_bytes(x as nat, i as nat),
            decreases l - i,
        {
            proof {
                lemma_u64_byte(x, i);
                lemma_le_bytes_push(x as nat, i as nat);
            }
            let byte: u8 = ((x >> (8 * i)) & 0xFF) as u8;
            bytes.push(byte);
            i += 1;
            assert(bytes@ =~= seq![varuint_prefix(x)] + le_bytes(x as nat, i as nat));
        }
        bytes
    }
}

impl GPSerializerTrivial for u32 {
    open spec fn gp_max_width() -> nat {
        fixed_max_width()
    }

    /// A `u32` is written least significant byte first.
    open spec fn gp_trivial_encoding(&self, l: nat) -> Seq<u8> {
        fixed_encoding(*self, l)
    }

    fn gp_serialize_trivial(&self, l: u8) -> (bytes: Vec<u8>) {
        let x: u32 = *self;
        let mut bytes: Vec<u8> = Vec::new();
        assert(bytes@ =~= le_bytes(x as nat, 0));
        let mut i: u8 = 0;
        while i < l
            invariant
                i <= l <= 4,
                bytes@ == le_bytes(x as nat, i as nat),
            decreases l - i,
        {
            proof {
                lemma_u32_byte(x, i as u32);
                lemma_le_bytes_push(x as nat, i as nat);
            }
            let byte: u8 = ((x >> (8 * (i as u32))) & 0xFF) as u8;
            bytes.push(byte);
            i += 1;
        }
        bytes
    }
}

/// Writes `value` out in exactly `l` bytes, least significant first, unless
/// it does not fit in them: then nothing is written and the overflow is
/// reported.
pub fn gp_serialize_trivial_checked(value: u32, l: u8) -> (r: Result<Vec<u8>, GPError>)
    requires
        l <= fixed_max_width(),
    ensures
        match r {
            Ok(bytes) => fixed_fits(value, l as nat) && bytes@ == fixed_encoding(value, l as nat),
            Err(e) => !fixed_fits(value, l as nat) && e == GPError::OverflowOnTrivial,
        },
{
    proof {
        lemma_u32_fits(value, l as u32);
    }
    if l < 4 && (value >> (8 * (l as u32))) != 0 {
        return Err(GPError::OverflowOnTrivial);
    }
    Ok(value.gp_serialize_trivial(l))
}

} // verus!
