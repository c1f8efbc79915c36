//! Byte-order encoding of integers shared by the wire formats of the device.

use vstd::prelude::*;

verus! {

/// The value of two bytes read as a little-endian unsigned integer.
pub open spec fn le16(b0: u8, b1: u8) -> int {
    b0 + 256 * b1
}

/// The value of four bytes read as a little-endian unsigned integer.
pub open spec fn le32(b0: u8, b1: u8, b2: u8, b3: u8) -> int {
    b0 + 256 * b1 + 65536 * b2 + 16777216 * b3
}

/// The value of two bytes read as a big-endian signed integer.
pub open spec fn be_i16(hi: u8, lo: u8) -> int {
    if hi < 128 {
        hi * 256 + lo
    } else {
        (hi - 256) * 256 + lo
    }
}

/// Decodes a little-endian `u16`.
pub fn u16_from_le(b0: u8, b1: u8) -> (r: u16)
    ensures
        r == le16(b0, b1),
{
    let r = (b0 as u16) | ((b1 as u16) << 8u16);
    assert(((b0 as u16) | ((b1 as u16) << 8u16)) == (b0 as u16) + (b1 as u16) * 256) by (bit_vector);
    r
}

/// Decodes a little-endian `u32`.
pub fn u32_from_le(b0: u8, b1: u8, b2: u8, b3: u8) -> (r: u32)
    ensures
        r == le32(b0, b1, b2, b3),
{
    let x0 = b0 as u32;
    let x1 = b1 as u32;
    let x2 = b2 as u32;
    let x3 = b3 as u32;
    let r = x0 | (x1 << 8u32) | (x2 << 16u32) | (x3 << 24u32);
    assert(x0 < 256 && x1 < 256 && x2 < 256 && x3 < 256);
    assert((x0 | (x1 << 8u32) | (x2 << 16u32) | (x3 << 24u32)) == x0 + x1 * 256 + x2 * 65536 + x3
        * 16777216) by (bit_vector)
        requires
            x0 < 256 && x1 < 256 && x2 < 256 && x3 < 256,
    ;
    r
}

/// Decodes a big-endian `i16`.
pub fn i16_from_be(hi: u8, lo: u8) -> (r: i16)
    ensures
        r == be_i16(hi, lo),
{
    let u: u16 = ((hi as u16) << 8u16) | (lo as u16);
    assert((((hi as u16) << 8u16) | (lo as u16)) == (hi as u16) * 256 + (lo as u16)) by (bit_vector);
    if u < 32768 {
        u as i16
    } else {
        let v: i32 = (u as i32) - 65536;
        v as i16
    }
}

/// Encodes a `u16` as two little-endian bytes.
pub fn u16_to_le(v: u16) -> (r: (u8, u8))
    ensures
        r.0 == v % 256,
        r.1 == v / 256,
        le16(r.0, r.1) == v,
{
    let lo = (v & 0xffu16) as u8;
    let hi = (v >> 8u16) as u8;
    assert((v & 0xffu16) == v % 256) by (bit_vector);
    assert((v >> 8u16) == v / 256) by (bit_vector);
    (lo, hi)
}

/// Encodes a `u32` as four little-endian bytes.
pub fn u32_to_le(v: u32) -> (r: (u8, u8, u8, u8))
    ensures
        r.0 == v % 256,
        r.1 == (v / 256) % 256,
        r.2 == (v / 65536) % 256,
        r.3 == v / 16777216,
        le32(r.0, r.1, r.2, r.3) == v,
{
    let b0 = (v & 0xffu32) as u8;
    let b1 = ((v >> 8u32) & 0xffu32) as u8;
    let b2 = ((v >> 16u32) & 0xffu32) as u8;
    let b3 = (v >> 24u32) as u8;
    assert((v & 0xffu32) == v % 256) by (bit_vector);
    assert(((v >> 8u32) & 0xffu32) == (v / 256) % 256) by (bit_vector);
    assert(((v >> 16u32) & 0xffu32) == (v / 65536) % 256) by (bit_vector);
    assert((v >> 24u32) == v / 16777216) by (bit_vector);
    (b0, b1, b2, b3)
}

} // verus!
