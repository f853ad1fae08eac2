//! Reading values from a byte stream at a position.

use vstd::prelude::*;
use vstd::utf8::{decode_utf8, valid_utf8};
use crate::dlms::utf8_string;

verus! {

/// The index of the first zero byte at or after `p`.
pub open spec fn nul_from(d: Seq<u8>, p: int) -> Option<int>
    decreases d.len() - p,
{
    if p < 0 || p >= d.len() {
        None
    } else if d[p] == 0 {
        Some(p)
    } else {
        nul_from(d, p + 1)
    }
}

/// Whether a zero-terminated UTF-8 string can be read at `p`.
pub open spec fn string_readable(d: Seq<u8>, p: int) -> bool {
    match nul_from(d, p) {
        Some(n) => valid_utf8(d.subrange(p, n)),
        None => false,
    }
}

/// Whether `read_string` can be called at `pos`: there is a terminating zero,
/// and the bytes before it are UTF-8.
pub fn can_read_string(data: &[u8], pos: usize) -> (r: bool)
    ensures
        r == string_readable(data@, pos as int),
{
    let mut n: usize = pos;
    while n < data.len() && data[n] != 0
        invariant
            pos <= n,
            nul_from(data@, n as int) == nul_from(data@, pos as int),
        decreases data@.len() - n,
    {
        n += 1;
    }
    if n >= data.len() {
        return false;
    }
    let mut bytes: Vec<u8> = Vec::new();
    let mut i: usize = pos;
    while i < n
        invariant
            pos <= i <= n < data@.len(),
            bytes@ =~= data@.subrange(pos as int, i as int),
        decreases n - i,
    {
        bytes.push(data[i]);
        i += 1;
    }
    utf8_string(bytes.as_slice()).is_ok()
}

/// Reads a zero-terminated UTF-8 string at `*pos` and moves past its zero.
pub fn read_string(data: &[u8], pos: &mut usize) -> (r: String)
    requires
        string_readable(data@, *old(pos) as int),
    ensures
        nul_from(data@, *old(pos) as int) == Some(*final(pos) - 1),
        r@ == decode_utf8(data@.subrange(*old(pos) as int, *final(pos) - 1)),
{
    let start = *pos;
    let mut n: usize = start;
    while data[n] != 0
        invariant
            start <= n < data@.len(),
            nul_from(data@, n as int) == nul_from(data@, start as int),
            nul_from(data@, start as int) is Some,
        decreases data@.len() - n,
    {
        n += 1;
    }
    let mut bytes: Vec<u8> = Vec::with_capacity(8);
    let mut i: usize = start;
    while i < n
        invariant
            start <= i <= n < data@.len(),
            bytes@ =~= data@.subrange(start as int, i as int),
        decreases n - i,
    {
        bytes.push(data[i]);
        i += 1;
    }
    *pos = n + 1;
    match utf8_string(bytes.as_slice()) {
        Ok(s) => s,
        Err(_) => String::new(),
    }
}

/// Reads `count` bytes at `*pos` and moves past them.
pub fn read_bytes(data: &[u8], pos: &mut usize, count: usize) -> (r: Vec<u8>)
    requires
        *old(pos) + count <= data@.len(),
    ensures
        *final(pos) == *old(pos) + count,
        r@ == data@.subrange(*old(pos) as int, *old(pos) + count),
{
    let start = *pos;
    let mut buf: Vec<u8> = Vec::new();
    let mut i: usize = start;
    assert(data@.len() == data.len());
    let end = start + count;
    while i < end
        invariant
            start <= i <= end <= data@.len(),
            end == start + count,
            buf@ =~= data@.subrange(start as int, i as int),
        decreases end - i,
    {
        buf.push(data[i]);
        i += 1;
    }
    *pos = end;
    buf
}

} // verus!
