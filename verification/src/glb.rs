//! The pieces of the glTF binary (`.glb`) to DLMS conversion that do not
//! touch floating point: the container framing, accessor layouts, which
//! meshes are kept, and how strings are written.

use vstd::prelude::*;
use vstd::string::StringSliceAdditionalSpecFns;
use vstd::utf8::{encode_utf8, decode_utf8, valid_utf8};
use crate::dlms::{spec_read_string, DlmsFault};
use crate::le::{le_u16, le_u32, u32_le, push_u32_le, read_u16_le, read_u32_le};
use crate::text::contains_bytes;
use serde_json::Value as JsonDocument;

verus! {

broadcast use vstd::utf8::encode_utf8_valid_utf8, vstd::utf8::encode_utf8_decode_utf8;

/// The parsed JSON document of a glTF file.
#[verifier::external_type_specification]
#[verifier::external_body]
pub struct ExJsonDocument(JsonDocument);

/// Name for what `serde_json::from_slice` makes of some
/// bytes: the document, or the text of the error.
pub uninterp spec fn parsed_json(bytes: Seq<u8>) -> Result<JsonDocument, Seq<char>>;

/// Calls `serde_json::from_slice` for a JSON document, turning an error
/// into its message. Trusted: the result is `parsed_json` of the bytes.
#[verifier::external_body]
fn parse_json(bytes: &[u8]) -> (r: Result<JsonDocument, String>)
    ensures
        match r {
            Ok(v) => parsed_json(bytes@) == Ok::<JsonDocument, Seq<char>>(v),
            Err(e) => parsed_json(bytes@) == Err::<JsonDocument, Seq<char>>(e@),
        },
{
    serde_json::from_slice(bytes).map_err(|e| e.to_string())
}

/// A glTF binary container: its JSON document and its binary buffer.
pub struct Glb {
    pub json: JsonDocument,
    pub bin: Vec<u8>,
}

/// A chunk of the container: its four-byte type and its data.
pub struct ChunkModel {
    pub kind: Seq<u8>,
    pub data: Seq<u8>,
}

/// The bytes of `glTF`.
pub open spec fn glb_magic() -> Seq<u8> {
    seq![103u8, 108u8, 84u8, 70u8]
}

/// The bytes of `JSON`.
pub open spec fn json_kind() -> Seq<u8> {
    seq![74u8, 83u8, 79u8, 78u8]
}

/// The bytes of `BIN\0`.
pub open spec fn bin_kind() -> Seq<u8> {
    seq![66u8, 73u8, 78u8, 0u8]
}

/// Whether the buffer starts with a container header.
pub open spec fn glb_header(d: Seq<u8>) -> bool {
    d.len() >= 12 && d.subrange(0, 4) == glb_magic()
}

/// The chunks from `offset` up to the container length `length`, each a
/// little-endian length, a type and the data; `None` when one does not fit in
/// the buffer.
pub open spec fn chunks_from(d: Seq<u8>, length: int, offset: int) -> Option<Seq<ChunkModel>>
    decreases d.len() - offset,
{
    if offset >= length {
        Some(seq![])
    } else if offset < 0 || offset + 8 > d.len() {
        None
    } else {
        let n = le_u32(d, offset) as int;
        let start = offset + 8;
        if start + n > d.len() {
            None
        } else {
            match chunks_from(d, length, start + n) {
                Some(rest) => Some(
                    seq![ChunkModel { kind: d.subrange(offset + 4, start), data: d.subrange(start, start + n) }]
                        + rest,
                ),
                None => None,
            }
        }
    }
}

/// The chunks of a container with a header.
pub open spec fn glb_chunks(d: Seq<u8>) -> Option<Seq<ChunkModel>> {
    chunks_from(d, le_u32(d, 8) as int, 12)
}

/// Whether a buffer can be read without running past its end: a buffer
/// without a container header is rejected before any chunk is read.
pub open spec fn glb_fits(d: Seq<u8>) -> bool {
    glb_header(d) ==> glb_chunks(d) is Some
}

/// Whether a buffer can be read without running past its end.
pub fn glb_well_framed(data: &[u8]) -> (r: bool)
    ensures
        r == glb_fits(data@),
{
    if !has_glb_header(data) {
        return true;
    }
    let length = read_u32_le(data, 8) as usize;
    let mut offset: usize = 12;
    while offset < length
        invariant
            glb_header(data@),
            length == le_u32(data@, 8),
            12 <= offset <= data@.len(),
            glb_chunks(data@) is Some <==> chunks_from(data@, length as int, offset as int) is Some,
        decreases data@.len() - offset,
    {
        if data.len() - offset < 8 {
            return false;
        }
        let n = read_u32_le(data, offset) as usize;
        let start = offset + 8;
        if n > data.len() - start {
            return false;
        }
        offset = start + n;
    }
    true
}

fn has_glb_header(data: &[u8]) -> (r: bool)
    ensures
        r == glb_header(data@),
{
    let r = data.len() >= 12 && data[0] == 103 && data[1] == 108 && data[2] == 84 && data[3] == 70;
    proof {
        if data@.len() >= 12 {
            assert(data@.subrange(0, 4) =~= seq![data@[0], data@[1], data@[2], data@[3]]);
        }
    }
    r
}

/// The data of the last chunk of a kind.
pub open spec fn last_of_kind(chunks: Seq<ChunkModel>, kind: Seq<u8>) -> Option<Seq<u8>>
    decreases chunks.len(),
{
    if chunks.len() == 0 {
        None
    } else if chunks.last().kind == kind {
        Some(chunks.last().data)
    } else {
        last_of_kind(chunks.drop_last(), kind)
    }
}

/// The first JSON chunk that does not parse, and its error.
pub open spec fn first_json_error(chunks: Seq<ChunkModel>) -> Option<Seq<char>>
    decreases chunks.len(),
{
    if chunks.len() == 0 {
        None
    } else {
        match first_json_error(chunks.drop_last()) {
            Some(e) => Some(e),
            None => if chunks.last().kind == json_kind() {
                match parsed_json(chunks.last().data) {
                    Err(e) => Some(e),
                    Ok(_) => None,
                }
            } else {
                None
            },
        }
    }
}

/// Reads a glTF binary container: the buffer must start with `glTF`; each
/// JSON chunk is parsed in turn, the first that fails giving the error; the
/// last JSON chunk is the document, which must exist, and the last binary
/// chunk is the buffer, empty when there is none.
pub fn parse_glb(data: &[u8]) -> (r: Result<Glb, String>)
    requires
        glb_fits(data@),
    ensures
        !glb_header(data@) ==> (r matches Err(e) && e@ == "not a glb file"@),
        glb_header(data@) ==> {
            let chunks = glb_chunks(data@).unwrap();
            match first_json_error(chunks) {
                Some(e) => (r matches Err(x) && x@ == e),
                None => match last_of_kind(chunks, json_kind()) {
                    None => (r matches Err(x) && x@ == "glb missing JSON chunk"@),
                    Some(j) => r matches Ok(g) && parsed_json(j) == Ok::<JsonDocument, Seq<char>>(
                        g.json,
                    ) && g.bin@ == match last_of_kind(chunks, bin_kind()) {
                        Some(b) => b,
                        None => Seq::<u8>::empty(),
                    },
                },
            }
        },
{
    if !has_glb_header(data) {
        return Err("not a glb file".to_owned());
    }
    let length = read_u32_le(data, 8) as usize;
    let ghost all = glb_chunks(data@).unwrap();
    let mut offset: usize = 12;
    let mut json: Option<JsonDocument> = None;
    let mut bin: Option<Vec<u8>> = None;
    let ghost mut seen: Seq<ChunkModel> = seq![];
    while offset < length
        invariant
            glb_header(data@),
            length == le_u32(data@, 8),
            12 <= offset <= data@.len(),
            all == glb_chunks(data@).unwrap(),
            glb_chunks(data@) is Some,
            chunks_from(data@, length as int, offset as int) is Some,
            seen + chunks_from(data@, length as int, offset as int).unwrap() == all,
            first_json_error(seen) is None,
            match last_of_kind(seen, json_kind()) {
                None => json is None,
                Some(j) => json matches Some(v) && parsed_json(j) == Ok::<JsonDocument, Seq<
                    char,
                >>(v),
            },
            match last_of_kind(seen, bin_kind()) {
                None => bin is None,
                Some(b) => bin matches Some(v) && v@ == b,
            },
        decreases data@.len() - offset,
    {
        assert(offset + 8 <= data@.len() && offset + 8 + le_u32(data@, offset as int) <= data@.len());
        assert(data@.len() == data.len());
        let n = read_u32_le(data, offset) as usize;
        let start = offset + 8;
        let ghost chunk = ChunkModel {
            kind: data@.subrange(offset + 4, start as int),
            data: data@.subrange(start as int, start + n),
        };
        let ghost rest = chunks_from(data@, length as int, (start + n) as int).unwrap();
        assert(chunks_from(data@, length as int, offset as int).unwrap() == seq![chunk] + rest);
        let kind = [data[offset + 4], data[offset + 5], data[offset + 6], data[offset + 7]];
        assert(kind@ =~= chunk.kind);
        let mut bytes: Vec<u8> = Vec::new();
        let mut i: usize = start;
        let end = start + n;
        while i < end
            invariant
                start <= i <= end <= data@.len(),
                bytes@ =~= data@.subrange(start as int, i as int),
            decreases end - i,
        {
            bytes.push(data[i]);
            i += 1;
        }
        let ghost next_seen = seen.push(chunk);
        assert(next_seen.drop_last() =~= seen);
        assert(next_seen + rest =~= seen + (seq![chunk] + rest));
        if kind[0] == 74 && kind[1] == 83 && kind[2] == 79 && kind[3] == 78 {
            assert(chunk.kind =~= json_kind());
            match parse_json(bytes.as_slice()) {
                Ok(v) => {
                    json = Some(v);
                },
                Err(e) => {
                    proof {
                        lemma_json_error_stays(next_seen, all, rest);
                    }
                    return Err(e);
                },
            }
        } else if kind[0] == 66 && kind[1] == 73 && kind[2] == 78 && kind[3] == 0 {
            assert(chunk.kind =~= bin_kind());
            bin = Some(bytes);
        } else {
            assert(chunk.kind != json_kind()) by {
                assert(chunk.kind[0] != 74 || chunk.kind[1] != 83 || chunk.kind[2] != 79 || chunk.kind[3] != 78);
            }
            assert(chunk.kind != bin_kind()) by {
                assert(chunk.kind[0] != 66 || chunk.kind[1] != 73 || chunk.kind[2] != 78 || chunk.kind[3] != 0);
            }
        }
        proof {
            seen = next_seen;
            assert(seen + rest =~= all);
        }
        offset = start + n;
    }
    assert(seen =~= all) by {
        assert(chunks_from(data@, length as int, offset as int).unwrap() =~= Seq::<ChunkModel>::empty());
    }
    match json {
        None => Err("glb missing JSON chunk".to_owned()),
        Some(v) => Ok(Glb { json: v, bin: match bin { Some(b) => b, None => Vec::new() } }),
    }
}

/// A JSON error in the chunks read so far is the first error of all chunks.
proof fn lemma_json_error_stays(seen: Seq<ChunkModel>, all: Seq<ChunkModel>, rest: Seq<ChunkModel>)
    requires
        seen + rest == all,
        first_json_error(seen) is Some,
    ensures
        first_json_error(all) == first_json_error(seen),
    decreases rest.len(),
{
    if rest.len() > 0 {
        let shorter = rest.drop_last();
        assert((seen + shorter) + seq![rest.last()] =~= all);
        lemma_json_error_stays(seen, seen + shorter, shorter);
        assert(all.drop_last() =~= seen + shorter);
    } else {
        assert(seen =~= all);
    }
}

/// The size in bytes of an accessor component type, for the types glTF
/// defines.
pub open spec fn spec_component_size(component_type: u64) -> Option<usize> {
    if component_type == 5120 || component_type == 5121 {
        Some(1)
    } else if component_type == 5122 || component_type == 5123 {
        Some(2)
    } else if component_type == 5125 || component_type == 5126 {
        Some(4)
    } else {
        None
    }
}

/// Whether an accessor component type is one glTF defines.
pub fn is_component_type(component_type: u64) -> (r: bool)
    ensures
        r == spec_component_size(component_type) is Some,
{
    component_type == 5120 || component_type == 5121 || component_type == 5122 || component_type
        == 5123 || component_type == 5125 || component_type == 5126
}

pub fn component_size(component_type: u64) -> (r: usize)
    requires
        spec_component_size(component_type) is Some,
    ensures
        spec_component_size(component_type) == Some(r),
{
    if component_type == 5120 || component_type == 5121 {
        1
    } else if component_type == 5122 || component_type == 5123 {
        2
    } else {
        4
    }
}

/// The size in bytes of a component of a known type.
pub open spec fn size_of_component(component_type: u64) -> int {
    spec_component_size(component_type).unwrap() as int
}

/// The value of an optional offset: the offset, or 0 when it is missing.
pub open spec fn offset_or_zero(o: Option<u64>) -> int {
    match o {
        Some(x) => x as int,
        None => 0,
    }
}

/// Where an accessor's rows lie: the offset of its first row (the buffer
/// view's offset plus the accessor's own, each 0 when missing) and the
/// distance between rows (the view's stride, or the size of a row when the
/// view gives none). `None` where these do not fit a `usize`.
pub open spec fn spec_accessor_layout(
    bv_offset: Option<u64>,
    acc_offset: Option<u64>,
    stride: Option<u64>,
    n_comp: usize,
    comp_size: usize,
) -> Option<(usize, usize)> {
    let base = offset_or_zero(bv_offset) + offset_or_zero(acc_offset);
    let step: int = match stride {
        Some(s) => s as int,
        None => n_comp * comp_size,
    };
    if base <= usize::MAX && step <= usize::MAX {
        Some((base as usize, step as usize))
    } else {
        None
    }
}

/// Where an accessor's rows lie (see `spec_accessor_layout`).
pub fn accessor_layout(
    bv_offset: Option<u64>,
    acc_offset: Option<u64>,
    stride: Option<u64>,
    n_comp: usize,
    comp_size: usize,
) -> (r: Option<(usize, usize)>)
    ensures
        r == spec_accessor_layout(bv_offset, acc_offset, stride, n_comp, comp_size),
{
    let a: u64 = match bv_offset {
        Some(x) => x,
        None => 0,
    };
    let b: u64 = match acc_offset {
        Some(x) => x,
        None => 0,
    };
    let base = match a.checked_add(b) {
        Some(x) => x,
        None => {
            return None;
        },
    };
    if base > usize::MAX as u64 {
        return None;
    }
    let step: usize = match stride {
        Some(x) => {
            if x > usize::MAX as u64 {
                return None;
            }
            x as usize
        },
        None => match n_comp.checked_mul(comp_size) {
            Some(x) => x,
            None => {
                return None;
            },
        },
    };
    Some((base as usize, step))
}

/// The raw value of a component of `size` bytes at `off`: the byte, or the
/// little-endian `u16` or `u32`, widened to `u32`.
pub open spec fn raw_component(d: Seq<u8>, off: int, size: int) -> u32 {
    if size == 1 {
        d[off] as u32
    } else if size == 2 {
        le_u16(d, off) as u32
    } else {
        le_u32(d, off)
    }
}

/// The byte offset of component `c` of row `i` of an accessor whose rows
/// start at `base`, `stride` bytes apart.
pub open spec fn component_offset(base: int, stride: int, size: int, i: int, c: int) -> int {
    base + i * stride + c * size
}

/// Whether every component of the first `count` rows lies within a buffer
/// of `len` bytes.
pub open spec fn accessor_in_bounds(len: int, base: int, stride: int, count: int, n_comp: int, size: int) -> bool {
    forall|i: int, c: int|
        0 <= i < count && 0 <= c < n_comp ==> #[trigger] component_offset(base, stride, size, i, c) + size <= len
}

/// The raw values of an accessor's components, row by row.
pub open spec fn accessor_raw_rows(d: Seq<u8>, base: int, stride: int, count: int, n_comp: int, size: int) -> Seq<Seq<u32>> {
    Seq::new(
        count as nat,
        |i: int| Seq::new(n_comp as nat, |c: int| raw_component(d, component_offset(base, stride, size, i, c), size)),
    )
}

/// Reads the raw value of each component of each of `count` rows of an
/// accessor from the binary buffer: the rows start at `base`, `stride`
/// bytes apart, and hold `n_comp` components of `component_type`. `None`
/// when a component lies past the end of the buffer.
pub fn accessor_components(
    bin: &[u8],
    base: usize,
    stride: usize,
    count: usize,
    n_comp: usize,
    component_type: u64,
) -> (r: Option<Vec<Vec<u32>>>)
    requires
        spec_component_size(component_type) is Some,
    ensures
        r is Some <==> accessor_in_bounds(
            bin@.len() as int,
            base as int,
            stride as int,
            count as int,
            n_comp as int,
            size_of_component(component_type),
        ),
        r matches Some(rows) ==> rows@.map_values(|v: Vec<u32>| v@) == accessor_raw_rows(
            bin@,
            base as int,
            stride as int,
            count as int,
            n_comp as int,
            size_of_component(component_type),
        ),
{
    let size = component_size(component_type);
    let ghost sz = size as int;
    let ghost target = accessor_raw_rows(bin@, base as int, stride as int, count as int, n_comp as int, sz);
    let mut rows: Vec<Vec<u32>> = Vec::new();
    let mut i: usize = 0;
    while i < count
        invariant
            i <= count,
            sz == size as int,
            sz == size_of_component(component_type),
            size == 1 || size == 2 || size == 4,
            target == accessor_raw_rows(bin@, base as int, stride as int, count as int, n_comp as int, sz),
            rows@.map_values(|v: Vec<u32>| v@) == target.subrange(0, i as int),
            forall|i2: int, c: int|
                0 <= i2 < i && 0 <= c < n_comp ==> #[trigger] component_offset(base as int, stride as int, sz, i2, c)
                    + sz <= bin@.len(),
        decreases count - i,
    {
        let mut row: Vec<u32> = Vec::new();
        let mut c: usize = 0;
        while c < n_comp
            invariant
                i < count,
                c <= n_comp,
                sz == size as int,
                sz == size_of_component(component_type),
                size == 1 || size == 2 || size == 4,
                target == accessor_raw_rows(bin@, base as int, stride as int, count as int, n_comp as int, sz),
                row@ == target[i as int].subrange(0, c as int),
                forall|c2: int| 0 <= c2 < c ==> #[trigger] component_offset(base as int, stride as int, sz, i as int, c2)
                    + sz <= bin@.len(),
            decreases n_comp - c,
        {
            let ghost off_i = component_offset(base as int, stride as int, sz, i as int, c as int);
            let blen = bin.len();
            assert(i * stride >= 0 && c * size >= 0) by (nonlinear_arith);
            let off: Option<usize> = match i.checked_mul(stride) {
                Some(row_off) => match c.checked_mul(size) {
                    Some(comp_off) => match base.checked_add(row_off) {
                        Some(start) => start.checked_add(comp_off),
                        None => None,
                    },
                    None => None,
                },
                None => None,
            };
            let fits = match off {
                Some(o) => o <= blen && size <= blen - o,
                None => false,
            };
            if !fits {
                proof {
                    assert(off_i + sz > bin@.len());
                    assert(!accessor_in_bounds(
                        bin@.len() as int,
                        base as int,
                        stride as int,
                        count as int,
                        n_comp as int,
                        size_of_component(component_type),
                    )) by {
                        assert(component_offset(base as int, stride as int, sz, i as int, c as int) + sz > bin@.len());
                    }
                }
                return None;
            }
            let off = off.unwrap();
            assert(off as int == off_i);
            let v: u32 = if size == 1 {
                bin[off] as u32
            } else if size == 2 {
                read_u16_le(bin, off) as u32
            } else {
                read_u32_le(bin, off)
            };
            assert(v == target[i as int][c as int]);
            row.push(v);
            assert(row@ =~= target[i as int].subrange(0, c + 1));
            c += 1;
        }
        assert(row@ =~= target[i as int]);
        let ghost prev = rows@;
        let ghost rv = row@;
        rows.push(row);
        assert(rows@.map_values(|v: Vec<u32>| v@) =~= prev.map_values(|v: Vec<u32>| v@).push(rv));
        assert(rows@.map_values(|v: Vec<u32>| v@) =~= target.subrange(0, i + 1));
        i += 1;
    }
    assert(target.subrange(0, count as int) =~= target);
    Some(rows)
}

/// How many components an accessor type has.
pub open spec fn spec_component_count(type_: Seq<char>) -> Option<usize> {
    if type_ == "SCALAR"@ {
        Some(1)
    } else if type_ == "VEC2"@ {
        Some(2)
    } else if type_ == "VEC3"@ {
        Some(3)
    } else if type_ == "VEC4"@ {
        Some(4)
    } else if type_ == "MAT4"@ {
        Some(16)
    } else {
        None
    }
}

fn component_count(type_: &str) -> (r: Option<usize>)
    ensures
        r == spec_component_count(type_@),
{
    if crate::text::str_eq(type_, "SCALAR") {
        Some(1)
    } else if crate::text::str_eq(type_, "VEC2") {
        Some(2)
    } else if crate::text::str_eq(type_, "VEC3") {
        Some(3)
    } else if crate::text::str_eq(type_, "VEC4") {
        Some(4)
    } else if crate::text::str_eq(type_, "MAT4") {
        Some(16)
    } else {
        None
    }
}

/// Whether an accessor type is one glTF defines.
pub fn is_accessor_type(type_: &str) -> (r: bool)
    ensures
        r == spec_component_count(type_@) is Some,
{
    component_count(type_).is_some()
}

pub fn type_component_count(type_: &str) -> (r: usize)
    requires
        spec_component_count(type_@) is Some,
    ensures
        spec_component_count(type_@) == Some(r),
{
    match component_count(type_) {
        Some(n) => n,
        None => 1,
    }
}

/// Only meshes seen on other players are kept: those whose name contains
/// `thirdperson_body` or `thirdperson_default_gloves`.
pub open spec fn spec_keeps_mesh(name: Seq<u8>) -> bool {
    contains_bytes(name, "thirdperson_body".spec_bytes()) || contains_bytes(
        name,
        "thirdperson_default_gloves".spec_bytes(),
    )
}

pub fn keeps_mesh(name: &str) -> (r: bool)
    ensures
        r == spec_keeps_mesh(name.spec_bytes()),
{
    let b = name.as_bytes();
    crate::text::bytes_contains(b, "thirdperson_body".as_bytes()) || crate::text::bytes_contains(
        b,
        "thirdperson_default_gloves".as_bytes(),
    )
}

/// The encoding of a string: its byte length as a little-endian `u32`, then
/// its UTF-8 bytes.
pub open spec fn encoded_string(s: Seq<char>) -> Seq<u8> {
    u32_le(encode_utf8(s).len() as u32) + encode_utf8(s)
}

/// Appends a length-prefixed string.
pub fn write_string(out: &mut Vec<u8>, s: &str)
    ensures
        final(out)@ == old(out)@ + encoded_string(s@),
{
    let bytes = s.as_bytes();
    push_u32_le(out, bytes.len() as u32);
    let ghost mid = out@;
    let mut i: usize = 0;
    while i < bytes.len()
        invariant
            i <= bytes@.len(),
            bytes@ == s.spec_bytes(),
            out@ == mid + bytes@.subrange(0, i as int),
        decreases bytes@.len() - i,
    {
        out.push(bytes[i]);
        assert(bytes@.subrange(0, i + 1) =~= bytes@.subrange(0, i as int).push(bytes@[i as int]));
        i += 1;
    }
    assert(bytes@.subrange(0, bytes@.len() as int) =~= bytes@);
    assert(out@ =~= old(out)@ + encoded_string(s@));
}

/// What the converter writes for a string, the mesh loader reads back: the
/// same text, ending right after it, whatever precedes or follows it. Strings
/// of 4 GiB and more do not fit the length field and are left out.
pub proof fn lemma_string_round_trip(prefix: Seq<u8>, s: Seq<char>, rest: Seq<u8>)
    requires
        encode_utf8(s).len() < 0x1_0000_0000,
    ensures
        spec_read_string(prefix + encoded_string(s) + rest, prefix.len() as int) == Ok::<
            (Seq<char>, int),
            DlmsFault,
        >((s, (prefix.len() + 4 + encode_utf8(s).len()) as int)),
{
    let d = prefix + encoded_string(s) + rest;
    let b = encode_utf8(s);
    let p = prefix.len() as int;
    let n = b.len() as u32;
    assert(d.subrange(p, p + 4) =~= u32_le(n));
    assert(le_u32(d, p) == le_u32(u32_le(n), 0)) by {
        assert(d[p] == u32_le(n)[0] && d[p + 1] == u32_le(n)[1] && d[p + 2] == u32_le(n)[2] && d[p + 3]
            == u32_le(n)[3]);
    }
    crate::le::lemma_u32_le_roundtrip(n);
    assert(d.subrange(p + 4, p + 4 + b.len()) =~= b);
}

} // verus!
