//! The primitive wire format: fixed-width little-endian pieces.
//!
//! Unsigned integers go through the little-endian byte conversions of vstd;
//! this module adds the two's-complement bit images of the signed widths and
//! the single-byte character form, with their round-trip laws.

use vstd::bytes::{
    spec_u16_from_le_bytes, spec_u16_to_le_bytes, spec_u32_from_le_bytes, spec_u32_to_le_bytes,
    spec_u64_from_le_bytes, spec_u64_to_le_bytes, u16_from_le_bytes, u16_to_le_bytes,
    u32_from_le_bytes, u32_to_le_bytes, u64_from_le_bytes, u64_to_le_bytes,
};
use vstd::prelude::*;
use vstd::slice::slice_subrange;

verus! {

/// The unsigned bit image of an 8-bit signed integer (two's complement).
pub open spec fn i8_to_bits(x: i8) -> u8 {
    if x >= 0 {
        x as u8
    } else {
        (x + 0x100) as u8
    }
}

/// The signed reading of an 8-bit pattern (two's complement).
pub open spec fn bits_to_i8(b: u8) -> i8 {
    if b < 0x80 {
        b as i8
    } else {
        (b - 0x100) as i8
    }
}

/// The unsigned bit image of a 16-bit signed integer.
pub open spec fn i16_to_bits(x: i16) -> u16 {
    if x >= 0 {
        x as u16
    } else {
        (x + 0x1_0000) as u16
    }
}

/// The signed reading of a 16-bit pattern.
pub open spec fn bits_to_i16(b: u16) -> i16 {
    if b < 0x8000 {
        b as i16
    } else {
        (b - 0x1_0000) as i16
    }
}

/// The unsigned bit image of a 32-bit signed integer.
pub open spec fn i32_to_bits(x: i32) -> u32 {
    if x >= 0 {
        x as u32
    } else {
        (x + 0x1_0000_0000) as u32
    }
}

/// The signed reading of a 32-bit pattern.
pub open spec fn bits_to_i32(b: u32) -> i32 {
    if b < 0x8000_0000 {
        b as i32
    } else {
        (b - 0x1_0000_0000) as i32
    }
}

/// The unsigned bit image of a 64-bit signed integer.
pub open spec fn i64_to_bits(x: i64) -> u64 {
    if x >= 0 {
        x as u64
    } else {
        (x + 0x1_0000_0000_0000_0000) as u64
    }
}

/// The signed reading of a 64-bit pattern.
pub open spec fn bits_to_i64(b: u64) -> i64 {
    if b < 0x8000_0000_0000_0000 {
        b as i64
    } else {
        (b - 0x1_0000_0000_0000_0000) as i64
    }
}

/// The signed bit images round-trip in both directions.
pub proof fn lemma_signed_bits_roundtrip()
    ensures
        forall|x: i8| #[trigger] bits_to_i8(i8_to_bits(x)) == x,
        forall|b: u8| #[trigger] i8_to_bits(bits_to_i8(b)) == b,
        forall|x: i16| #[trigger] bits_to_i16(i16_to_bits(x)) == x,
        forall|b: u16| #[trigger] i16_to_bits(bits_to_i16(b)) == b,
        forall|x: i32| #[trigger] bits_to_i32(i32_to_bits(x)) == x,
        forall|b: u32| #[trigger] i32_to_bits(bits_to_i32(b)) == b,
        forall|x: i64| #[trigger] bits_to_i64(i64_to_bits(x)) == x,
        forall|b: u64| #[trigger] i64_to_bits(bits_to_i64(b)) == b,
{
}

/// Computes the unsigned bit image of an `i8`.
pub fn i8_bits(x: i8) -> (b: u8)
    ensures
        b == i8_to_bits(x),
{
    if x >= 0 {
        x as u8
    } else {
        ((x as i16) + 0x100) as u8
    }
}

/// Reads an 8-bit pattern as a signed integer.
pub fn i8_of_bits(b: u8) -> (x: i8)
    ensures
        x == bits_to_i8(b),
{
    if b < 0x80 {
        b as i8
    } else {
        ((b as i16) - 0x100) as i8
    }
}

/// Computes the unsigned bit image of an `i16`.
pub fn i16_bits(x: i16) -> (b: u16)
    ensures
        b == i16_to_bits(x),
{
    if x >= 0 {
        x as u16
    } else {
        ((x as i32) + 0x1_0000) as u16
    }
}

/// Reads a 16-bit pattern as a signed integer.
pub fn i16_of_bits(b: u16) -> (x: i16)
    ensures
        x == bits_to_i16(b),
{
    if b < 0x8000 {
        b as i16
    } else {
        ((b as i32) - 0x1_0000) as i16
    }
}

/// Computes the unsigned bit image of an `i32`.
pub fn i32_bits(x: i32) -> (b: u32)
    ensures
        b == i32_to_bits(x),
{
    if x >= 0 {
        x as u32
    } else {
        ((x as i64) + 0x1_0000_0000) as u32
    }
}

/// Reads a 32-bit pattern as a signed integer.
pub fn i32_of_bits(b: u32) -> (x: i32)
    ensures
        x == bits_to_i32(b),
{
    if b < 0x8000_0000 {
        b as i32
    } else {
        ((b as i64) - 0x1_0000_0000) as i32
    }
}

/// Computes the unsigned bit image of an `i64`.
pub fn i64_bits(x: i64) -> (b: u64)
    ensures
        b == i64_to_bits(x),
{
    if x >= 0 {
        x as u64
    } else {
        ((x as i128) + 0x1_0000_0000_0000_0000) as u64
    }
}

/// Reads a 64-bit pattern as a signed integer.
pub fn i64_of_bits(b: u64) -> (x: i64)
    ensures
        x == bits_to_i64(b),
{
    if b < 0x8000_0000_0000_0000 {
        b as i64
    } else {
        ((b as i128) - 0x1_0000_0000_0000_0000) as i64
    }
}

/// Appends the 2-byte little-endian form of a `u16`.
pub fn push_u16(out: &mut Vec<u8>, x: u16)
    ensures
        final(out)@ == old(out)@ + spec_u16_to_le_bytes(x),
{
    let mut bs = u16_to_le_bytes(x);
    out.append(&mut bs);
}

/// Appends the 4-byte little-endian form of a `u32`.
pub fn push_u32(out: &mut Vec<u8>, x: u32)
    ensures
        final(out)@ == old(out)@ + spec_u32_to_le_bytes(x),
{
    let mut bs = u32_to_le_bytes(x);
    out.append(&mut bs);
}

/// Appends the 8-byte little-endian form of a `u64`.
pub fn push_u64(out: &mut Vec<u8>, x: u64)
    ensures
        final(out)@ == old(out)@ + spec_u64_to_le_bytes(x),
{
    let mut bs = u64_to_le_bytes(x);
    out.append(&mut bs);
}

/// Appends a copy of the given bytes.
pub fn push_bytes(out: &mut Vec<u8>, bs: &Vec<u8>)
    ensures
        final(out)@ == old(out)@ + bs@,
{
    let ghost base = out@;
    let mut i: usize = 0;
    while i < bs.len()
        invariant
            i <= bs@.len(),
            out@ == base + bs@.subrange(0, i as int),
        decreases bs@.len() - i,
    {
        out.push(bs[i]);
        proof {
            assert(base + bs@.subrange(0, i + 1) =~= (base + bs@.subrange(0, i as int)).push(
                bs@[i as int],
            ));
        }
        i = i + 1;
    }
    proof {
        assert(base + bs@.subrange(0, bs@.len() as int) =~= base + bs@);
    }
}

/// Reads the 2-byte little-endian `u16` at `pos`.
pub fn read_u16(data: &Vec<u8>, pos: usize) -> (x: u16)
    requires
        pos + 2 <= data@.len(),
    ensures
        x == spec_u16_from_le_bytes(data@.subrange(pos as int, pos + 2)),
{
    let n = data.len();
    let s = slice_subrange(data.as_slice(), pos, pos + 2);
    u16_from_le_bytes(s)
}

/// Reads the 4-byte little-endian `u32` at `pos`.
pub fn read_u32(data: &Vec<u8>, pos: usize) -> (x: u32)
    requires
        pos + 4 <= data@.len(),
    ensures
        x == spec_u32_from_le_bytes(data@.subrange(pos as int, pos + 4)),
{
    let n = data.len();
    let s = slice_subrange(data.as_slice(), pos, pos + 4);
    u32_from_le_bytes(s)
}

/// Reads the 8-byte little-endian `u64` at `pos`.
pub fn read_u64(data: &Vec<u8>, pos: usize) -> (x: u64)
    requires
        pos + 8 <= data@.len(),
    ensures
        x == spec_u64_from_le_bytes(data@.subrange(pos as int, pos + 8)),
{
    let n = data.len();
    let s = slice_subrange(data.as_slice(), pos, pos + 8);
    u64_from_le_bytes(s)
}

} // verus!
