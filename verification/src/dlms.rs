//! The DLMS binary mesh format: a shared joint table, then submeshes.
//! Floating-point values are carried as their IEEE-754 bit patterns.

use vstd::prelude::*;
use vstd::utf8::{decode_utf8, valid_utf8};
use crate::le::{le_u16, le_u32, read_u16_le, read_u32_le};
use crate::gltf::{decimal_chars, decimal_string};
use vstd::string::StringExecFns;

verus! {

/// Why a DLMS buffer could not be loaded.
#[derive(Debug, Clone, PartialEq, Eq)]
pub enum DlmsError {
    /// The buffer ended before a value it announces.
    Truncated,
    /// The buffer does not start with `DLMS`.
    BadMagic,
    /// The version field is not the one this loader reads.
    UnsupportedVersion(u32),
    /// A name is not valid UTF-8; the text of the decoding error.
    InvalidUtf8(String),
}

/// The model of a loading error.
pub enum DlmsFault {
    Truncated,
    BadMagic,
    UnsupportedVersion(u32),
    InvalidUtf8(Seq<char>),
}

/// The model of a loading error: its kind, and the text of a decoding error.
pub open spec fn fault(e: DlmsError) -> DlmsFault {
    match e {
        DlmsError::Truncated => DlmsFault::Truncated,
        DlmsError::BadMagic => DlmsFault::BadMagic,
        DlmsError::UnsupportedVersion(v) => DlmsFault::UnsupportedVersion(v),
        DlmsError::InvalidUtf8(t) => DlmsFault::InvalidUtf8(t@),
    }
}

/// The message a loading error is reported with.
pub open spec fn fault_message(f: DlmsFault) -> Seq<char> {
    match f {
        DlmsFault::Truncated => "dlms truncated"@,
        DlmsFault::BadMagic => "bad dlms magic"@,
        DlmsFault::UnsupportedVersion(v) => "unsupported dlms version "@ + decimal_chars(v as nat),
        DlmsFault::InvalidUtf8(t) => t,
    }
}

impl DlmsError {
    /// The message the error is reported with.
    pub fn message(&self) -> (r: String)
        ensures
            r@ == fault_message(fault(*self)),
    {
        match self {
            DlmsError::Truncated => {
                proof {
                    reveal_strlit("dlms truncated");
                }
                String::from_str("dlms truncated")
            },
            DlmsError::BadMagic => {
                proof {
                    reveal_strlit("bad dlms magic");
                }
                String::from_str("bad dlms magic")
            },
            DlmsError::UnsupportedVersion(v) => {
                proof {
                    reveal_strlit("unsupported dlms version ");
                }
                String::from_str("unsupported dlms version ").concat(decimal_string(*v as u64).as_str())
            },
            DlmsError::InvalidUtf8(t) => String::from_str(t.as_str()),
        }
    }
}

/// Name for the text `String::from_utf8` reports for bytes that are not
/// valid UTF-8 (the display of its error).
pub uninterp spec fn utf8_error_text(bytes: Seq<u8>) -> Seq<char>;

/// The format version this loader reads.
pub const DLMS_VERSION: u32 = 4;

/// Calls `String::from_utf8`, turning its error into the error's text.
/// Trusted: it succeeds exactly on valid UTF-8 (as std documents), giving the
/// decoded text; otherwise the text is `utf8_error_text` of the bytes.
#[verifier::external_body]
pub(crate) fn utf8_string(bytes: &[u8]) -> (r: Result<String, String>)
    ensures
        r is Ok <==> valid_utf8(bytes@),
        r matches Ok(s) ==> s@ == decode_utf8(bytes@),
        r matches Err(e) ==> e@ == utf8_error_text(bytes@),
{
    match String::from_utf8(bytes.to_vec()) {
        Ok(s) => Ok(s),
        Err(e) => Err(e.to_string()),
    }
}

/// `n` rows of `k` little-endian `u32` values starting at `p`.
pub open spec fn rows_u32(d: Seq<u8>, p: int, n: int, k: int) -> Seq<Seq<u32>> {
    Seq::new(n as nat, |r: int| Seq::new(k as nat, |c: int| le_u32(d, p + 4 * (k * r + c))))
}

/// `n` rows of `k` little-endian `u16` values starting at `p`.
pub open spec fn rows_u16(d: Seq<u8>, p: int, n: int, k: int) -> Seq<Seq<u16>> {
    Seq::new(n as nat, |r: int| Seq::new(k as nat, |c: int| le_u16(d, p + 2 * (k * r + c))))
}

/// `n` little-endian `u32` values starting at `p`.
pub open spec fn words(d: Seq<u8>, p: int, n: int) -> Seq<u32> {
    Seq::new(n as nat, |k: int| le_u32(d, p + 4 * k))
}

/// A length-prefixed UTF-8 string at `p`, and the position after it.
pub open spec fn spec_read_string(d: Seq<u8>, p: int) -> Result<(Seq<char>, int), DlmsFault> {
    if p + 4 > d.len() {
        Err(DlmsFault::Truncated)
    } else {
        let n = le_u32(d, p) as int;
        if p + 4 + n > d.len() {
            Err(DlmsFault::Truncated)
        } else if valid_utf8(d.subrange(p + 4, p + 4 + n)) {
            Ok((decode_utf8(d.subrange(p + 4, p + 4 + n)), p + 4 + n))
        } else {
            Err(DlmsFault::InvalidUtf8(utf8_error_text(d.subrange(p + 4, p + 4 + n))))
        }
    }
}

/// The joint table: `n` names each followed by a 4x4 matrix, and the
/// position after it.
pub open spec fn spec_read_joints(d: Seq<u8>, p: int, n: nat) -> Result<
    (Seq<Seq<char>>, Seq<Seq<u32>>, int),
    DlmsFault,
>
    decreases n,
{
    if n == 0 {
        Ok((Seq::empty(), Seq::empty(), p))
    } else {
        match spec_read_joints(d, p, (n - 1) as nat) {
            Err(e) => Err(e),
            Ok((names, mats, q)) => match spec_read_string(d, q) {
                Err(e) => Err(e),
                Ok((name, r)) => if r + 64 > d.len() {
                    Err(DlmsFault::Truncated)
                } else {
                    Ok((names.push(name), mats.push(words(d, r, 16)), r + 64))
                },
            },
        }
    }
}

/// The model of a submesh.
pub struct SubmeshModel {
    pub name: Seq<char>,
    pub positions: Seq<Seq<u32>>,
    pub normals: Seq<Seq<u32>>,
    pub uvs: Seq<Seq<u32>>,
    pub joint_indices: Seq<Seq<u16>>,
    pub joint_weights: Seq<Seq<u32>>,
    pub indices: Seq<u32>,
}

/// The model of a mesh asset.
pub struct MeshModel {
    pub joint_names: Seq<Seq<char>>,
    pub inverse_bind: Seq<Seq<u32>>,
    pub parent_indices: Seq<i32>,
    pub submeshes: Seq<SubmeshModel>,
}

/// The bytes a submesh takes after its name and two counts: positions,
/// normals, uvs, joint indices, joint weights (per vertex), then indices.
pub open spec fn submesh_body_len(v: int, i: int) -> int {
    56 * v + 4 * i
}

/// One submesh at `p`, and the position after it.
pub open spec fn spec_read_submesh(d: Seq<u8>, p: int) -> Result<(SubmeshModel, int), DlmsFault> {
    match spec_read_string(d, p) {
        Err(e) => Err(e),
        Ok((name, q)) => if q + 8 > d.len() {
            Err(DlmsFault::Truncated)
        } else {
            let v = le_u32(d, q) as int;
            let i = le_u32(d, q + 4) as int;
            let r = q + 8;
            if r + submesh_body_len(v, i) > d.len() {
                Err(DlmsFault::Truncated)
            } else {
                Ok(
                    (
                        SubmeshModel {
                            name,
                            positions: rows_u32(d, r, v, 3),
                            normals: rows_u32(d, r + 12 * v, v, 3),
                            uvs: rows_u32(d, r + 24 * v, v, 2),
                            joint_indices: rows_u16(d, r + 32 * v, v, 4),
                            joint_weights: rows_u32(d, r + 40 * v, v, 4),
                            indices: words(d, r + 56 * v, i),
                        },
                        r + submesh_body_len(v, i),
                    ),
                )
            }
        },
    }
}

/// `n` submeshes at `p`, and the position after them.
pub open spec fn spec_read_submeshes(d: Seq<u8>, p: int, n: nat) -> Result<
    (Seq<SubmeshModel>, int),
    DlmsFault,
>
    decreases n,
{
    if n == 0 {
        Ok((Seq::empty(), p))
    } else {
        match spec_read_submeshes(d, p, (n - 1) as nat) {
            Err(e) => Err(e),
            Ok((subs, q)) => match spec_read_submesh(d, q) {
                Err(e) => Err(e),
                Ok((s, r)) => Ok((subs.push(s), r)),
            },
        }
    }
}

/// The bytes of `DLMS`.
pub open spec fn dlms_magic() -> Seq<u8> {
    seq![68u8, 76u8, 77u8, 83u8]
}

/// What loading a DLMS buffer gives: magic, version 4, the joint table,
/// one parent index per joint, then the submeshes. Bytes after the last
/// submesh are ignored.
pub open spec fn spec_load(d: Seq<u8>) -> Result<MeshModel, DlmsFault> {
    if d.len() < 4 {
        Err(DlmsFault::Truncated)
    } else if d.take(4) != dlms_magic() {
        Err(DlmsFault::BadMagic)
    } else if d.len() < 8 {
        Err(DlmsFault::Truncated)
    } else if le_u32(d, 4) != 4 {
        Err(DlmsFault::UnsupportedVersion(le_u32(d, 4)))
    } else if d.len() < 12 {
        Err(DlmsFault::Truncated)
    } else {
        let jc = le_u32(d, 8) as nat;
        match spec_read_joints(d, 12, jc) {
            Err(e) => Err(e),
            Ok((names, mats, q)) => if q + 4 * jc > d.len() {
                Err(DlmsFault::Truncated)
            } else {
                let parents = Seq::new(jc, |k: int| le_u32(d, q + 4 * k) as i32);
                let r = q + 4 * jc;
                if r + 4 > d.len() {
                    Err(DlmsFault::Truncated)
                } else {
                    match spec_read_submeshes(d, r + 4, le_u32(d, r) as nat) {
                        Err(e) => Err(e),
                        Ok((subs, _)) => Ok(
                            MeshModel {
                                joint_names: names,
                                inverse_bind: mats,
                                parent_indices: parents,
                                submeshes: subs,
                            },
                        ),
                    }
                }
            },
        }
    }
}

} // verus!

verus! {

/// A submesh; float values are kept as their bit patterns.
pub struct Submesh {
    pub name: String,
    pub positions: Vec<[u32; 3]>,
    pub normals: Vec<[u32; 3]>,
    pub uvs: Vec<[u32; 2]>,
    pub joint_indices: Vec<[u16; 4]>,
    pub joint_weights: Vec<[u32; 4]>,
    pub indices: Vec<u32>,
}

/// A loaded mesh: joint names, inverse bind matrices (column-major bit
/// patterns), parent joint indices (-1 for none) and submeshes.
pub struct MeshAsset {
    pub joint_names: Vec<String>,
    pub inverse_bind: Vec<[u32; 16]>,
    pub parent_indices: Vec<i32>,
    pub submeshes: Vec<Submesh>,
}

/// The model of a list of strings.
pub open spec fn strings_view(s: Seq<String>) -> Seq<Seq<char>> {
    s.map_values(|x: String| x@)
}

/// The model of a submesh.
pub open spec fn submesh_view(s: Submesh) -> SubmeshModel {
    SubmeshModel {
        name: s.name@,
        positions: s.positions@.map_values(|a: [u32; 3]| a@),
        normals: s.normals@.map_values(|a: [u32; 3]| a@),
        uvs: s.uvs@.map_values(|a: [u32; 2]| a@),
        joint_indices: s.joint_indices@.map_values(|a: [u16; 4]| a@),
        joint_weights: s.joint_weights@.map_values(|a: [u32; 4]| a@),
        indices: s.indices@,
    }
}

/// The model of a mesh asset.
pub open spec fn asset_view(a: MeshAsset) -> MeshModel {
    MeshModel {
        joint_names: strings_view(a.joint_names@),
        inverse_bind: a.inverse_bind@.map_values(|m: [u32; 16]| m@),
        parent_indices: a.parent_indices@,
        submeshes: a.submeshes@.map_values(|s: Submesh| submesh_view(s)),
    }
}

/// A read position in a byte buffer.
pub struct Cursor<'a> {
    pub data: &'a [u8],
    pub pos: usize,
}

impl<'a> Cursor<'a> {
    /// The position lies within the buffer.
    pub open spec fn wf(&self) -> bool {
        self.pos <= self.data@.len()
    }

    /// A cursor at the start of `data`.
    pub fn new(data: &'a [u8]) -> (c: Self)
        ensures
            c.data == data,
            c.pos == 0,
            c.wf(),
    {
        Cursor { data, pos: 0 }
    }

    /// The next `len` bytes; fails without moving when fewer are left.
    pub fn bytes(&mut self, len: usize) -> (r: Result<&'a [u8], DlmsError>)
        requires
            old(self).wf(),
        ensures
            final(self).wf(),
            final(self).data == old(self).data,
            old(self).pos + len <= old(self).data@.len() ==> {
                &&& r matches Ok(s) && s@ == old(self).data@.subrange(
                    old(self).pos as int,
                    old(self).pos + len,
                )
                &&& final(self).pos == old(self).pos + len
            },
            old(self).pos + len > old(self).data@.len() ==> {
                &&& r matches Err(DlmsError::Truncated)
                &&& final(self).pos == old(self).pos
            },
    {
        if len > self.data.len() - self.pos {
            return Err(DlmsError::Truncated);
        }
        let end = self.pos + len;
        let slice = &self.data[self.pos..end];
        self.pos = end;
        Ok(slice)
    }

    /// The next little-endian `u32`.
    pub fn u32(&mut self) -> (r: Result<u32, DlmsError>)
        requires
            old(self).wf(),
        ensures
            final(self).wf(),
            final(self).data == old(self).data,
            old(self).pos + 4 <= old(self).data@.len() ==> {
                &&& r == Ok::<u32, DlmsError>(le_u32(old(self).data@, old(self).pos as int))
                &&& final(self).pos == old(self).pos + 4
            },
            old(self).pos + 4 > old(self).data@.len() ==> r matches Err(DlmsError::Truncated),
    {
        let b = self.bytes(4)?;
        Ok(read_u32_le(b, 0))
    }

    /// The next little-endian `i32`.
    pub fn i32(&mut self) -> (r: Result<i32, DlmsError>)
        requires
            old(self).wf(),
        ensures
            final(self).wf(),
            final(self).data == old(self).data,
            old(self).pos + 4 <= old(self).data@.len() ==> {
                &&& r == Ok::<i32, DlmsError>(le_u32(old(self).data@, old(self).pos as int) as i32)
                &&& final(self).pos == old(self).pos + 4
            },
            old(self).pos + 4 > old(self).data@.len() ==> r matches Err(DlmsError::Truncated),
    {
        let v = self.u32()?;
        Ok(v as i32)
    }

    /// The next little-endian `u16`.
    pub fn u16(&mut self) -> (r: Result<u16, DlmsError>)
        requires
            old(self).wf(),
        ensures
            final(self).wf(),
            final(self).data == old(self).data,
            old(self).pos + 2 <= old(self).data@.len() ==> {
                &&& r == Ok::<u16, DlmsError>(le_u16(old(self).data@, old(self).pos as int))
                &&& final(self).pos == old(self).pos + 2
            },
            old(self).pos + 2 > old(self).data@.len() ==> r matches Err(DlmsError::Truncated),
    {
        let b = self.bytes(2)?;
        Ok(read_u16_le(b, 0))
    }

    /// The bit pattern of the next little-endian `f32`.
    pub fn f32_bits(&mut self) -> (r: Result<u32, DlmsError>)
        requires
            old(self).wf(),
        ensures
            final(self).wf(),
            final(self).data == old(self).data,
            old(self).pos + 4 <= old(self).data@.len() ==> {
                &&& r == Ok::<u32, DlmsError>(le_u32(old(self).data@, old(self).pos as int))
                &&& final(self).pos == old(self).pos + 4
            },
            old(self).pos + 4 > old(self).data@.len() ==> r matches Err(DlmsError::Truncated),
    {
        self.u32()
    }

    /// The next length-prefixed UTF-8 string.
    pub fn string(&mut self) -> (r: Result<String, DlmsError>)
        requires
            old(self).wf(),
        ensures
            final(self).wf(),
            final(self).data == old(self).data,
            match spec_read_string(old(self).data@, old(self).pos as int) {
                Ok((s, q)) => r matches Ok(x) && x@ == s && final(self).pos == q,
                Err(e) => r matches Err(x) && fault(x) == e,
            },
    {
        let len = self.u32()?;
        let bytes = self.bytes(len as usize)?;
        match utf8_string(bytes) {
            Ok(s) => Ok(s),
            Err(t) => Err(DlmsError::InvalidUtf8(t)),
        }
    }

    /// The next 16 floats, as one matrix of bit patterns.
    pub fn mat4(&mut self) -> (r: Result<[u32; 16], DlmsError>)
        requires
            old(self).wf(),
        ensures
            final(self).wf(),
            final(self).data == old(self).data,
            old(self).pos + 64 <= old(self).data@.len() ==> {
                &&& r matches Ok(m) && m@ == words(old(self).data@, old(self).pos as int, 16)
                &&& final(self).pos == old(self).pos + 64
            },
            old(self).pos + 64 > old(self).data@.len() ==> r matches Err(DlmsError::Truncated),
    {
        let b = self.bytes(64)?;
        let m = [
            read_u32_le(b, 0),
            read_u32_le(b, 4),
            read_u32_le(b, 8),
            read_u32_le(b, 12),
            read_u32_le(b, 16),
            read_u32_le(b, 20),
            read_u32_le(b, 24),
            read_u32_le(b, 28),
            read_u32_le(b, 32),
            read_u32_le(b, 36),
            read_u32_le(b, 40),
            read_u32_le(b, 44),
            read_u32_le(b, 48),
            read_u32_le(b, 52),
            read_u32_le(b, 56),
            read_u32_le(b, 60),
        ];
        assert(m@ =~= words(old(self).data@, old(self).pos as int, 16));
        Ok(m)
    }

    /// The next four little-endian `u16` joint indices.
    pub fn joint4(&mut self) -> (r: Result<[u16; 4], DlmsError>)
        requires
            old(self).wf(),
        ensures
            final(self).wf(),
            final(self).data == old(self).data,
            old(self).pos + 8 <= old(self).data@.len() ==> {
                &&& r matches Ok(a) && a@ == Seq::new(4, |k: int| le_u16(old(self).data@, old(self).pos + 2 * k))
                &&& final(self).pos == old(self).pos + 8
            },
            old(self).pos + 8 > old(self).data@.len() ==> r matches Err(DlmsError::Truncated),
    {
        let b = self.bytes(8)?;
        let a = [read_u16_le(b, 0), read_u16_le(b, 2), read_u16_le(b, 4), read_u16_le(b, 6)];
        assert(a@ =~= Seq::new(4, |k: int| le_u16(old(self).data@, old(self).pos + 2 * k)));
        Ok(a)
    }

    /// The bit patterns of the next four little-endian `f32` joint weights.
    pub fn weight4(&mut self) -> (r: Result<[u32; 4], DlmsError>)
        requires
            old(self).wf(),
        ensures
            final(self).wf(),
            final(self).data == old(self).data,
            old(self).pos + 16 <= old(self).data@.len() ==> {
                &&& r matches Ok(a) && a@ == words(old(self).data@, old(self).pos as int, 4)
                &&& final(self).pos == old(self).pos + 16
            },
            old(self).pos + 16 > old(self).data@.len() ==> r matches Err(DlmsError::Truncated),
    {
        let b = self.bytes(16)?;
        let a = [read_u32_le(b, 0), read_u32_le(b, 4), read_u32_le(b, 8), read_u32_le(b, 12)];
        assert(a@ =~= words(old(self).data@, old(self).pos as int, 4));
        Ok(a)
    }
}

} // verus!

verus! {

/// `n` rows of three `u32` values at `p`.
fn read_rows3(d: &[u8], p: usize, n: usize) -> (r: Vec<[u32; 3]>)
    requires
        p + 12 * n <= d@.len(),
    ensures
        r@.map_values(|a: [u32; 3]| a@) == rows_u32(d@, p as int, n as int, 3),
{
    let mut out: Vec<[u32; 3]> = Vec::new();
    let mut j: usize = 0;
    while j < n
        invariant
            p + 12 * n <= d@.len(),
            d@.len() == d.len(),
            j <= n,
            out@.len() == j,
            forall|r: int| 0 <= r < j ==> (#[trigger] out@[r])@ == rows_u32(d@, p as int, n as int, 3)[r],
        decreases n - j,
    {
        let q = p + 12 * j;
        let a = [read_u32_le(d, q), read_u32_le(d, q + 4), read_u32_le(d, q + 8)];
        assert(a@ =~= rows_u32(d@, p as int, n as int, 3)[j as int]);
        out.push(a);
        j = j + 1;
    }
    assert(out@.map_values(|a: [u32; 3]| a@) =~= rows_u32(d@, p as int, n as int, 3));
    out
}

/// `n` rows of two `u32` values at `p`.
fn read_rows2(d: &[u8], p: usize, n: usize) -> (r: Vec<[u32; 2]>)
    requires
        p + 8 * n <= d@.len(),
    ensures
        r@.map_values(|a: [u32; 2]| a@) == rows_u32(d@, p as int, n as int, 2),
{
    let mut out: Vec<[u32; 2]> = Vec::new();
    let mut j: usize = 0;
    while j < n
        invariant
            p + 8 * n <= d@.len(),
            d@.len() == d.len(),
            j <= n,
            out@.len() == j,
            forall|r: int| 0 <= r < j ==> (#[trigger] out@[r])@ == rows_u32(d@, p as int, n as int, 2)[r],
        decreases n - j,
    {
        let q = p + 8 * j;
        let a = [read_u32_le(d, q), read_u32_le(d, q + 4)];
        assert(a@ =~= rows_u32(d@, p as int, n as int, 2)[j as int]);
        out.push(a);
        j = j + 1;
    }
    assert(out@.map_values(|a: [u32; 2]| a@) =~= rows_u32(d@, p as int, n as int, 2));
    out
}

/// `n` rows of four `u32` values at `p`.
fn read_rows4(d: &[u8], p: usize, n: usize) -> (r: Vec<[u32; 4]>)
    requires
        p + 16 * n <= d@.len(),
    ensures
        r@.map_values(|a: [u32; 4]| a@) == rows_u32(d@, p as int, n as int, 4),
{
    let mut out: Vec<[u32; 4]> = Vec::new();
    let mut j: usize = 0;
    while j < n
        invariant
            p + 16 * n <= d@.len(),
            d@.len() == d.len(),
            j <= n,
            out@.len() == j,
            forall|r: int| 0 <= r < j ==> (#[trigger] out@[r])@ == rows_u32(d@, p as int, n as int, 4)[r],
        decreases n - j,
    {
        let q = p + 16 * j;
        let a = [
            read_u32_le(d, q),
            read_u32_le(d, q + 4),
            read_u32_le(d, q + 8),
            read_u32_le(d, q + 12),
        ];
        assert(a@ =~= rows_u32(d@, p as int, n as int, 4)[j as int]);
        out.push(a);
        j = j + 1;
    }
    assert(out@.map_values(|a: [u32; 4]| a@) =~= rows_u32(d@, p as int, n as int, 4));
    out
}

/// `n` rows of four `u16` values at `p`.
fn read_rows4_u16(d: &[u8], p: usize, n: usize) -> (r: Vec<[u16; 4]>)
    requires
        p + 8 * n <= d@.len(),
    ensures
        r@.map_values(|a: [u16; 4]| a@) == rows_u16(d@, p as int, n as int, 4),
{
    let mut out: Vec<[u16; 4]> = Vec::new();
    let mut j: usize = 0;
    while j < n
        invariant
            p + 8 * n <= d@.len(),
            d@.len() == d.len(),
            j <= n,
            out@.len() == j,
            forall|r: int| 0 <= r < j ==> (#[trigger] out@[r])@ == rows_u16(d@, p as int, n as int, 4)[r],
        decreases n - j,
    {
        let q = p + 8 * j;
        let a = [
            read_u16_le(d, q),
            read_u16_le(d, q + 2),
            read_u16_le(d, q + 4),
            read_u16_le(d, q + 6),
        ];
        assert(a@ =~= rows_u16(d@, p as int, n as int, 4)[j as int]);
        out.push(a);
        j = j + 1;
    }
    assert(out@.map_values(|a: [u16; 4]| a@) =~= rows_u16(d@, p as int, n as int, 4));
    out
}

/// `n` little-endian `u32` values at `p`.
fn read_words(d: &[u8], p: usize, n: usize) -> (r: Vec<u32>)
    requires
        p + 4 * n <= d@.len(),
    ensures
        r@ == words(d@, p as int, n as int),
{
    let mut out: Vec<u32> = Vec::new();
    let mut j: usize = 0;
    while j < n
        invariant
            p + 4 * n <= d@.len(),
            d@.len() == d.len(),
            j <= n,
            out@ =~= words(d@, p as int, j as int),
        decreases n - j,
    {
        out.push(read_u32_le(d, p + 4 * j));
        j = j + 1;
        assert(out@ =~= words(d@, p as int, j as int));
    }
    out
}

} // verus!

verus! {

proof fn lemma_joints_err_stays(d: Seq<u8>, p: int, m: nat, n: nat)
    requires
        m <= n,
        spec_read_joints(d, p, m) is Err,
    ensures
        spec_read_joints(d, p, n) == spec_read_joints(d, p, m),
    decreases n,
{
    if m < n {
        lemma_joints_err_stays(d, p, m, (n - 1) as nat);
    }
}

proof fn lemma_submeshes_err_stays(d: Seq<u8>, p: int, m: nat, n: nat)
    requires
        m <= n,
        spec_read_submeshes(d, p, m) is Err,
    ensures
        spec_read_submeshes(d, p, n) == spec_read_submeshes(d, p, m),
    decreases n,
{
    if m < n {
        lemma_submeshes_err_stays(d, p, m, (n - 1) as nat);
    }
}

/// Reads one submesh at the cursor.
fn read_submesh(cursor: &mut Cursor) -> (r: Result<Submesh, DlmsError>)
    requires
        old(cursor).wf(),
    ensures
        final(cursor).wf(),
        final(cursor).data == old(cursor).data,
        match spec_read_submesh(old(cursor).data@, old(cursor).pos as int) {
            Ok((s, q)) => r matches Ok(x) && submesh_view(x) == s && final(cursor).pos == q,
            Err(e) => r is Err && fault(r->Err_0) == e,
        },
{
    let ghost d = cursor.data@;
    let name = cursor.string()?;
    let v = cursor.u32()?;
    let i = cursor.u32()?;
    let need: u64 = 56 * (v as u64) + 4 * (i as u64);
    if need > (cursor.data.len() - cursor.pos) as u64 {
        return Err(DlmsError::Truncated);
    }
    let data = cursor.data;
    let p = cursor.pos;
    let vn = v as usize;
    let positions = read_rows3(data, p, vn);
    let normals = read_rows3(data, p + 12 * vn, vn);
    let uvs = read_rows2(data, p + 24 * vn, vn);
    let joint_indices = read_rows4_u16(data, p + 32 * vn, vn);
    let joint_weights = read_rows4(data, p + 40 * vn, vn);
    let indices = read_words(data, p + 56 * vn, i as usize);
    let _ = cursor.bytes(need as usize);
    Ok(Submesh { name, positions, normals, uvs, joint_indices, joint_weights, indices })
}

impl MeshAsset {
    /// Loads a DLMS buffer (format version 4).
    pub fn load(data: &[u8]) -> (r: Result<MeshAsset, DlmsError>)
        ensures
            match r {
                Ok(a) => spec_load(data@) == Ok::<MeshModel, DlmsFault>(asset_view(a)),
                Err(e) => spec_load(data@) == Err::<MeshModel, DlmsFault>(fault(e)),
            },
    {
        let ghost d = data@;
        let mut cursor = Cursor::new(data);
        let magic = cursor.bytes(4)?;
        if !(magic[0] == 68 && magic[1] == 76 && magic[2] == 77 && magic[3] == 83) {
            assert(d.take(4) != dlms_magic()) by {
                if d.take(4) == dlms_magic() {
                    assert(magic@ =~= d.take(4));
                }
            }
            return Err(DlmsError::BadMagic);
        }
        assert(d.take(4) =~= dlms_magic());
        let version = cursor.u32()?;
        if version != DLMS_VERSION {
            return Err(DlmsError::UnsupportedVersion(version));
        }
        let joint_count = cursor.u32()?;
        let ghost jc = joint_count as nat;
        let mut joint_names: Vec<String> = Vec::new();
        let mut inverse_bind: Vec<[u32; 16]> = Vec::new();
        let mut k: u32 = 0;
        assert(strings_view(joint_names@) =~= Seq::empty());
        assert(inverse_bind@.map_values(|m: [u32; 16]| m@) =~= Seq::empty());
        assert(d.len() >= 12 && d.take(4) == dlms_magic() && le_u32(d, 4) == 4);
        while k < joint_count
            invariant
                d.len() >= 12 && d.take(4) == dlms_magic() && le_u32(d, 4) == 4,
                le_u32(d, 8) == joint_count,
                jc == joint_count as nat,
                cursor.wf(),
                cursor.data == data,
                d == data@,
                k <= joint_count,
                spec_read_joints(d, 12, k as nat) == Ok::<_, DlmsFault>(
                    (
                        strings_view(joint_names@),
                        inverse_bind@.map_values(|m: [u32; 16]| m@),
                        cursor.pos as int,
                    ),
                ),
            decreases joint_count - k,
        {
            let ghost names0 = joint_names@;
            let ghost mats0 = inverse_bind@;
            let name = match cursor.string() {
                Ok(s) => s,
                Err(e) => {
                    proof {
                        lemma_joints_err_stays(d, 12, (k + 1) as nat, jc);
                    }
                    return Err(e);
                },
            };
            let mat = match cursor.mat4() {
                Ok(m) => m,
                Err(e) => {
                    proof {
                        lemma_joints_err_stays(d, 12, (k + 1) as nat, jc);
                    }
                    return Err(e);
                },
            };
            joint_names.push(name);
            inverse_bind.push(mat);
            assert(strings_view(joint_names@) =~= strings_view(names0).push(name@));
            assert(inverse_bind@.map_values(|m: [u32; 16]| m@) =~= mats0.map_values(
                |m: [u32; 16]| m@,
            ).push(mat@));
            k = k + 1;
        }
        let q = cursor.pos;
        let ghost names = strings_view(joint_names@);
        let ghost mats = inverse_bind@.map_values(|m: [u32; 16]| m@);
        assert(spec_read_joints(d, 12, jc) == Ok::<_, DlmsFault>((names, mats, q as int)));
        if 4 * (joint_count as u64) > (data.len() - q) as u64 {
            return Err(DlmsError::Truncated);
        }
        let mut parent_indices: Vec<i32> = Vec::new();
        let mut k: u32 = 0;
        while k < joint_count
            invariant
                cursor.wf(),
                cursor.data == data,
                d == data@,
                k <= joint_count,
                q + 4 * joint_count <= d.len(),
                cursor.pos == q + 4 * k,
                parent_indices@ =~= Seq::new(k as nat, |j: int| le_u32(d, q + 4 * j) as i32),
            decreases joint_count - k,
        {
            let v = match cursor.i32() {
                Ok(v) => v,
                Err(e) => {
                    return Err(e);
                },
            };
            parent_indices.push(v);
            k = k + 1;
            assert(parent_indices@ =~= Seq::new(k as nat, |j: int| le_u32(d, q + 4 * j) as i32));
        }
        let submesh_count = cursor.u32()?;
        let ghost r0 = cursor.pos as int;
        let ghost sc = submesh_count as nat;
        let ghost parents = parent_indices@;
        assert(le_u32(d, r0 - 4) == submesh_count);
        let mut submeshes: Vec<Submesh> = Vec::new();
        let mut k: u32 = 0;
        assert(spec_read_submeshes(d, r0, 0) == Ok::<_, DlmsFault>(
            (submeshes@.map_values(|s: Submesh| submesh_view(s)), r0),
        )) by {
            assert(submeshes@.map_values(|s: Submesh| submesh_view(s)) =~= Seq::empty());
        }
        while k < submesh_count
            invariant
                d.len() >= 12 && d.take(4) == dlms_magic() && le_u32(d, 4) == 4,
                le_u32(d, 8) == joint_count,
                jc == joint_count as nat,
                sc == submesh_count as nat,
                spec_read_joints(d, 12, jc) == Ok::<_, DlmsFault>((names, mats, q as int)),
                q + 4 * jc + 4 <= d.len(),
                r0 == q + 4 * jc + 4,
                le_u32(d, q + 4 * jc) == submesh_count,
                parents =~= Seq::new(jc, |j: int| le_u32(d, q + 4 * j) as i32),
                cursor.wf(),
                cursor.data == data,
                d == data@,
                k <= submesh_count,
                spec_read_submeshes(d, r0, k as nat) == Ok::<_, DlmsFault>(
                    (submeshes@.map_values(|s: Submesh| submesh_view(s)), cursor.pos as int),
                ),
            decreases submesh_count - k,
        {
            let ghost subs0 = submeshes@;
            let s = match read_submesh(&mut cursor) {
                Ok(s) => s,
                Err(e) => {
                    proof {
                        lemma_submeshes_err_stays(d, r0, (k + 1) as nat, sc);
                    }
                    return Err(e);
                },
            };
            submeshes.push(s);
            assert(submeshes@.map_values(|s: Submesh| submesh_view(s)) =~= subs0.map_values(
                |s: Submesh| submesh_view(s),
            ).push(submesh_view(s)));
            k = k + 1;
        }
        let asset = MeshAsset { joint_names, inverse_bind, parent_indices, submeshes };
        assert(asset_view(asset).parent_indices == parents);
        Ok(asset)
    }
}

} // verus!
