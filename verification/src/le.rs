//! Little-endian integer encoding.

use vstd::prelude::*;

verus! {

/// The `u16` stored little-endian at `p`.
pub open spec fn le_u16(d: Seq<u8>, p: int) -> u16 {
    (d[p] as int + 256 * d[p + 1] as int) as u16
}

/// The `u32` stored little-endian at `p`.
pub open spec fn le_u32(d: Seq<u8>, p: int) -> u32 {
    (d[p] as int + 256 * d[p + 1] as int + 65536 * d[p + 2] as int + 16777216 * d[p + 3] as int) as u32
}

/// The little-endian bytes of a `u16`.
pub open spec fn u16_le(x: u16) -> Seq<u8> {
    seq![(x % 256) as u8, (x / 256) as u8]
}

/// The little-endian bytes of a `u32`.
pub open spec fn u32_le(x: u32) -> Seq<u8> {
    seq![
        (x % 256) as u8,
        (x / 256 % 256) as u8,
        (x / 65536 % 256) as u8,
        (x / 16777216) as u8,
    ]
}

/// The little-endian bytes of a `u64`.
pub open spec fn u64_le(x: u64) -> Seq<u8> {
    u32_le((x % 4294967296) as u32) + u32_le((x / 4294967296) as u32)
}

/// Reads the little-endian `u16` at `p`.
pub fn read_u16_le(d: &[u8], p: usize) -> (r: u16)
    requires
        p + 2 <= d@.len(),
    ensures
        r == le_u16(d@, p as int),
{
    d[p] as u16 + 256 * (d[p + 1] as u16)
}

/// Reads the little-endian `u32` at `p`.
pub fn read_u32_le(d: &[u8], p: usize) -> (r: u32)
    requires
        p + 4 <= d@.len(),
    ensures
        r == le_u32(d@, p as int),
{
    d[p] as u32 + 256 * (d[p + 1] as u32) + 65536 * (d[p + 2] as u32) + 16777216 * (
    d[p + 3] as u32)
}

/// Appends the little-endian bytes of a `u16`.
pub fn push_u16_le(out: &mut Vec<u8>, x: u16)
    ensures
        final(out)@ == old(out)@ + u16_le(x),
{
    out.push((x % 256) as u8);
    out.push((x / 256) as u8);
    assert(final(out)@ =~= old(out)@ + u16_le(x));
}

/// Appends the little-endian bytes of a `u32`.
pub fn push_u32_le(out: &mut Vec<u8>, x: u32)
    ensures
        final(out)@ == old(out)@ + u32_le(x),
{
    out.push((x % 256) as u8);
    out.push((x / 256 % 256) as u8);
    out.push((x / 65536 % 256) as u8);
    out.push((x / 16777216) as u8);
    assert(final(out)@ =~= old(out)@ + u32_le(x));
}

/// Appends the little-endian bytes of a `u64`.
pub fn push_u64_le(out: &mut Vec<u8>, x: u64)
    ensures
        final(out)@ == old(out)@ + u64_le(x),
{
    let lo = (x % 4294967296) as u32;
    let hi = (x / 4294967296) as u32;
    push_u32_le(out, lo);
    push_u32_le(out, hi);
    assert(final(out)@ =~= old(out)@ + u64_le(x));
}

/// Reading back the bytes of a `u32` gives the `u32`.
pub proof fn lemma_u32_le_roundtrip(x: u32)
    ensures
        le_u32(u32_le(x), 0) == x,
{
}

} // verus!
