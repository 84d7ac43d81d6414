//! Byte cursor primitives.
//!
//! Writes append big-endian bytes of fixed-width integers to a byte vector;
//! reads take a byte slice and a position and fail when fewer bytes remain
//! than the width asks for. No DNS semantics live here.

use vstd::prelude::*;
use crate::wire;

verus! {

/// Appends one byte.
pub fn write_u8(dst: &mut Vec<u8>, val: u8)
    ensures
        final(dst)@ == old(dst)@ + seq![val],
{
    dst.push(val);
}

/// Appends the two big-endian bytes of `val`.
pub fn write_u16_be(dst: &mut Vec<u8>, val: u16)
    ensures
        final(dst)@ == old(dst)@ + wire::encode_u16(val),
{
    dst.push((val / 256) as u8);
    dst.push((val % 256) as u8);
    proof {
        assert(dst@ =~= old(dst)@ + wire::encode_u16(val));
    }
}

/// Appends the two big-endian bytes of `val`, two's complement.
pub fn write_i16_be(dst: &mut Vec<u8>, val: i16)
    ensures
        final(dst)@ == old(dst)@ + wire::encode_i16(val),
{
    write_u16_be(dst, #[verifier::truncate] (val as u16));
}

/// Appends the four big-endian bytes of `val`.
pub fn write_u32_be(dst: &mut Vec<u8>, val: u32)
    ensures
        final(dst)@ == old(dst)@ + wire::encode_u32(val),
{
    dst.push((val / 0x1000000) as u8);
    dst.push(((val / 0x10000) % 256) as u8);
    dst.push(((val / 256) % 256) as u8);
    dst.push((val % 256) as u8);
    proof {
        assert(dst@ =~= old(dst)@ + wire::encode_u32(val));
    }
}

/// Appends the four big-endian bytes of `val`, two's complement.
pub fn write_i32_be(dst: &mut Vec<u8>, val: i32)
    ensures
        final(dst)@ == old(dst)@ + wire::encode_i32(val),
{
    write_u32_be(dst, #[verifier::truncate] (val as u32));
}

/// Reads the byte at `pos`, if it is inside the slice.
pub fn read_u8(src: &[u8], pos: usize) -> (r: Option<u8>)
    ensures
        r == if pos < src@.len() { Some(src@[pos as int]) } else { None::<u8> },
{
    if pos < src.len() {
        Some(src[pos])
    } else {
        None
    }
}

/// Reads the big-endian 16-bit unsigned integer at `pos`, if two bytes
/// remain.
pub fn read_u16_be(src: &[u8], pos: usize) -> (r: Option<u16>)
    ensures
        r == if pos + 2 <= src@.len() {
            Some(wire::be_u16(src@[pos as int], src@[pos as int + 1]))
        } else {
            None::<u16>
        },
{
    if pos < src.len() && src.len() - pos >= 2 {
        Some(src[pos] as u16 * 256 + src[pos + 1] as u16)
    } else {
        None
    }
}

/// Reads the big-endian 16-bit signed integer at `pos`, if two bytes remain.
pub fn read_i16_be(src: &[u8], pos: usize) -> (r: Option<i16>)
    ensures
        r == if pos + 2 <= src@.len() {
            Some(wire::be_u16(src@[pos as int], src@[pos as int + 1]) as i16)
        } else {
            None::<i16>
        },
{
    match read_u16_be(src, pos) {
        Some(v) => Some(#[verifier::truncate] (v as i16)),
        None => None,
    }
}

/// Reads the big-endian 32-bit unsigned integer at `pos`, if four bytes
/// remain.
pub fn read_u32_be(src: &[u8], pos: usize) -> (r: Option<u32>)
    ensures
        r == if pos + 4 <= src@.len() {
            Some(wire::be_u32(
                src@[pos as int],
                src@[pos as int + 1],
                src@[pos as int + 2],
                src@[pos as int + 3],
            ))
        } else {
            None::<u32>
        },
{
    if pos < src.len() && src.len() - pos >= 4 {
        Some(
            src[pos] as u32 * 0x1000000 + src[pos + 1] as u32 * 0x10000 + src[pos + 2] as u32 * 256
                + src[pos + 3] as u32,
        )
    } else {
        None
    }
}

/// Reads the big-endian 32-bit signed integer at `pos`, if four bytes
/// remain.
pub fn read_i32_be(src: &[u8], pos: usize) -> (r: Option<i32>)
    ensures
        r == if pos + 4 <= src@.len() {
            Some(wire::be_u32(
                src@[pos as int],
                src@[pos as int + 1],
                src@[pos as int + 2],
                src@[pos as int + 3],
            ) as i32)
        } else {
            None::<i32>
        },
{
    match read_u32_be(src, pos) {
        Some(v) => Some(#[verifier::truncate] (v as i32)),
        None => None,
    }
}

} // verus!
