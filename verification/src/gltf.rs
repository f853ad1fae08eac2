//! The structure of a glTF export as the DLMS converter reads it, and the
//! conversion itself: which meshes are kept, the one skeleton they share,
//! the vertex data of each of their primitives (with the defaults for
//! attributes a primitive lacks), and the DLMS version 4 bytes written from
//! them. Vertex data arrives decoded: floating-point values as the bit
//! patterns of the `f32` the converter writes, joint and index values as
//! the integers it writes.

use vstd::prelude::*;
use vstd::utf8::encode_utf8;
use crate::glb::{encoded_string, keeps_mesh, spec_keeps_mesh, write_string};
use crate::le::{push_u16_le, push_u32_le, u16_le, u32_le};
use vstd::string::StringExecFns;

verus! {

/// A node of the glTF scene: its name, the mesh and skin it uses, and its
/// child nodes (empty when it lists none).
#[derive(Debug, Clone)]
pub struct GltfNode {
    pub name: Option<String>,
    pub mesh: Option<u64>,
    pub skin: Option<u64>,
    pub children: Vec<u64>,
}

/// A skin: its joints as node indices (`None` when they are missing or not
/// all indices), and the accessor of its inverse bind matrices.
#[derive(Debug, Clone)]
pub struct GltfSkin {
    pub joints: Option<Vec<u64>>,
    pub inverse_bind_matrices: Option<u64>,
}

/// A primitive: the accessors of its attributes and of its indices.
#[derive(Debug, Clone, Copy)]
pub struct GltfPrimitive {
    pub position: Option<u64>,
    pub normal: Option<u64>,
    pub texcoord: Option<u64>,
    pub joints: Option<u64>,
    pub weights: Option<u64>,
    pub indices: Option<u64>,
}

/// A mesh: its name and its primitives (`None` when it has no list of them).
#[derive(Debug, Clone)]
pub struct GltfMesh {
    pub name: Option<String>,
    pub primitives: Option<Vec<GltfPrimitive>>,
}

/// The parts of a glTF document the converter reads; a list is `None` when
/// the document has none.
#[derive(Debug, Clone)]
pub struct GltfDoc {
    pub meshes: Option<Vec<GltfMesh>>,
    pub nodes: Option<Vec<GltfNode>>,
    pub skins: Option<Vec<GltfSkin>>,
}

/// The rows of an accessor, each decoded in the three ways the converter
/// writes values: as `f32` bit patterns, as `u16` and as `u32`.
#[derive(Debug, Clone)]
pub struct AccessorRows {
    pub floats: Vec<Vec<u32>>,
    pub shorts: Vec<Vec<u16>>,
    pub ints: Vec<Vec<u32>>,
}

/// The bit pattern of `1.0f32`.
pub const ONE_BITS: u32 = 0x3f80_0000;

/// A submesh as it is written: name, then rows of values.
pub struct SubmeshModel {
    pub name: Seq<char>,
    pub positions: Seq<Seq<u32>>,
    pub normals: Seq<Seq<u32>>,
    pub uvs: Seq<Seq<u32>>,
    pub joints: Seq<Seq<u16>>,
    pub weights: Seq<Seq<u32>>,
    pub indices: Seq<u32>,
}

/// The rows of accessor `i` as floats.
pub open spec fn float_rows(acc: Seq<Option<AccessorRows>>, i: u64) -> Seq<Seq<u32>> {
    acc[i as int].unwrap().floats@.map_values(|r: Vec<u32>| r@)
}

/// The rows of accessor `i` as `u16` values.
pub open spec fn short_rows(acc: Seq<Option<AccessorRows>>, i: u64) -> Seq<Seq<u16>> {
    acc[i as int].unwrap().shorts@.map_values(|r: Vec<u16>| r@)
}

/// The first value of each row of accessor `i`, as `u32`.
pub open spec fn first_ints(acc: Seq<Option<AccessorRows>>, i: u64) -> Seq<u32> {
    acc[i as int].unwrap().ints@.map_values(|r: Vec<u32>| r@[0])
}

/// Whether accessor `i` exists and was decoded, with every row holding at
/// least one value.
pub open spec fn accessor_ok(acc: Seq<Option<AccessorRows>>, i: u64) -> bool {
    &&& 0 <= i < acc.len()
    &&& acc[i as int] is Some
    &&& forall|r: int|
        0 <= r < acc[i as int].unwrap().ints@.len() ==> #[trigger] acc[i as int].unwrap().ints@[r]@.len() >= 1
}

/// The index of the skin of mesh `m`: that of the last node that uses the
/// mesh and has a skin.
pub open spec fn skin_of_mesh(nodes: Seq<GltfNode>, m: int) -> Option<u64>
    decreases nodes.len(),
{
    if nodes.len() == 0 {
        None
    } else if nodes.last().mesh == Some(m as u64) && nodes.last().skin is Some {
        nodes.last().skin
    } else {
        skin_of_mesh(nodes.drop_last(), m)
    }
}

/// The name of a mesh, `unnamed` when it has none.
pub open spec fn mesh_name(m: GltfMesh) -> Seq<char> {
    match m.name {
        Some(n) => n@,
        None => "unnamed"@,
    }
}

/// The decimal digit of a value below 10.
pub open spec fn digit_char(d: int) -> char {
    (48 + d) as char
}

/// The decimal text of a number.
pub open spec fn decimal_chars(n: nat) -> Seq<char>
    decreases n,
{
    if n < 10 {
        seq![digit_char(n as int)]
    } else {
        decimal_chars(n / 10).push(digit_char((n % 10) as int))
    }
}

/// The name of joint node `n`: the node's name, or `joint_` and its index.
pub open spec fn joint_label(nodes: Seq<GltfNode>, n: u64) -> Seq<char> {
    match nodes[n as int].name {
        Some(s) => s@,
        None => "joint_"@ + decimal_chars(n as nat),
    }
}

/// The joint names of a skin.
pub open spec fn skin_joint_names(nodes: Seq<GltfNode>, skin: GltfSkin) -> Seq<Seq<char>> {
    skin.joints.unwrap()@.map_values(|n: u64| joint_label(nodes, n))
}

/// Among the first `j` joints of a skin, the first whose node lists node
/// `child` among its children.
pub open spec fn first_parent(nodes: Seq<GltfNode>, joints: Seq<u64>, child: u64, j: nat) -> Option<nat>
    decreases j,
{
    if j == 0 {
        None
    } else {
        match first_parent(nodes, joints, child, (j - 1) as nat) {
            Some(p) => Some(p),
            None => if nodes[joints[j - 1] as int].children@.contains(child) {
                Some((j - 1) as nat)
            } else {
                None
            },
        }
    }
}

/// The parent of each joint of a skin, as an index into its joints: the
/// first joint whose node has the joint's node as a child, or `-1`.
pub open spec fn skin_parents(nodes: Seq<GltfNode>, skin: GltfSkin) -> Seq<i32> {
    let js = skin.joints.unwrap()@;
    Seq::new(
        js.len(),
        |k: int|
            match first_parent(nodes, js, js[k], js.len()) {
                Some(p) => p as i32,
                None => -1i32,
            },
    )
}

/// The identity matrix, as `f32` bit patterns.
pub open spec fn identity_bits() -> Seq<u32> {
    Seq::new(16, |i: int| if i % 5 == 0 { ONE_BITS } else { 0u32 })
}

/// A row of up to 16 values, padded with zeros to 16.
pub open spec fn pad16(row: Seq<u32>) -> Seq<u32> {
    Seq::new(16, |i: int| if i < row.len() { row[i] } else { 0u32 })
}

/// The inverse bind matrices of a skin: its accessor's rows, padded, or the
/// identity for every joint.
pub open spec fn skin_matrices(acc: Seq<Option<AccessorRows>>, skin: GltfSkin) -> Seq<Seq<u32>> {
    match skin.inverse_bind_matrices {
        Some(i) => float_rows(acc, i).map_values(|r: Seq<u32>| pad16(r)),
        None => Seq::new(skin.joints.unwrap()@.len(), |j: int| identity_bits()),
    }
}

/// The submesh written for a primitive of a kept mesh, or the error for a
/// primitive without positions. Missing attributes are filled in for every
/// vertex: normal `(0, 0, 1)`, texture coordinate `(0, 0)`, joints
/// `(0, 0, 0, 0)`, weights `(1, 0, 0, 0)`, and indices `0` to the vertex
/// count.
pub open spec fn primitive_submesh(name: Seq<char>, p: GltfPrimitive, acc: Seq<Option<AccessorRows>>) -> Result<SubmeshModel, Seq<char>> {
    match p.position {
        None => Err("primitive missing POSITION"@),
        Some(pi) => {
            let positions = float_rows(acc, pi);
            let n = positions.len();
            Ok(
                SubmeshModel {
                    name,
                    positions,
                    normals: normal_rows(p, acc, n),
                    uvs: uv_rows(p, acc, n),
                    joints: joint_rows(p, acc, n),
                    weights: weight_rows(p, acc, n),
                    indices: index_values(p, acc, n),
                },
            )
        },
    }
}

/// The normals of a primitive with `n` vertices: its accessor's rows, or
/// `(0, 0, 1)` for each vertex.
pub open spec fn normal_rows(p: GltfPrimitive, acc: Seq<Option<AccessorRows>>, n: nat) -> Seq<Seq<u32>> {
    match p.normal {
        Some(i) => float_rows(acc, i),
        None => Seq::new(n, |v: int| seq![0u32, 0u32, ONE_BITS]),
    }
}

/// The texture coordinates: the accessor's rows, or `(0, 0)` each.
pub open spec fn uv_rows(p: GltfPrimitive, acc: Seq<Option<AccessorRows>>, n: nat) -> Seq<Seq<u32>> {
    match p.texcoord {
        Some(i) => float_rows(acc, i),
        None => Seq::new(n, |v: int| seq![0u32, 0u32]),
    }
}

/// The joints: the accessor's rows, or `(0, 0, 0, 0)` each.
pub open spec fn joint_rows(p: GltfPrimitive, acc: Seq<Option<AccessorRows>>, n: nat) -> Seq<Seq<u16>> {
    match p.joints {
        Some(i) => short_rows(acc, i),
        None => Seq::new(n, |v: int| seq![0u16, 0u16, 0u16, 0u16]),
    }
}

/// The weights: the accessor's rows, or `(1, 0, 0, 0)` each.
pub open spec fn weight_rows(p: GltfPrimitive, acc: Seq<Option<AccessorRows>>, n: nat) -> Seq<Seq<u32>> {
    match p.weights {
        Some(i) => float_rows(acc, i),
        None => Seq::new(n, |v: int| seq![ONE_BITS, 0u32, 0u32, 0u32]),
    }
}

/// The indices: the first value of each row of the accessor, or `0` to
/// `n - 1`.
pub open spec fn index_values(p: GltfPrimitive, acc: Seq<Option<AccessorRows>>, n: nat) -> Seq<u32> {
    match p.indices {
        Some(i) => first_ints(acc, i),
        None => Seq::new(n, |v: int| v as u32),
    }
}

/// The submeshes of the first `j` primitives, or the first error.
pub open spec fn primitives_submeshes(name: Seq<char>, ps: Seq<GltfPrimitive>, acc: Seq<Option<AccessorRows>>, j: nat) -> Result<Seq<SubmeshModel>, Seq<char>>
    decreases j,
{
    if j == 0 {
        Ok(Seq::empty())
    } else {
        match primitives_submeshes(name, ps, acc, (j - 1) as nat) {
            Err(e) => Err(e),
            Ok(subs) => match primitive_submesh(name, ps[j - 1], acc) {
                Err(e) => Err(e),
                Ok(s) => Ok(subs.push(s)),
            },
        }
    }
}

/// The skeleton: joint names, their inverse bind matrices and their parent
/// joints.
pub type Skeleton = (Seq<Seq<char>>, Seq<Seq<u32>>, Seq<i32>);

/// The message for a mesh whose skin lists other joints than the skeleton.
pub open spec fn mismatch_message(name: Seq<char>) -> Seq<char> {
    "joint order mismatch in "@ + name + ": submeshes do not share one skeleton as assumed"@
}

/// The conversion of the first `k` meshes: the skeleton (from the first
/// kept mesh with a skin) and the submeshes so far, or the first error. A
/// mesh counts when its name is kept and a node gives it a skin; its skin
/// must list the skeleton's joints, in order.
pub open spec fn convert_meshes(doc: GltfDoc, acc: Seq<Option<AccessorRows>>, k: nat) -> Result<(Option<Skeleton>, Seq<SubmeshModel>), Seq<char>>
    decreases k,
{
    if k == 0 {
        Ok((None, Seq::empty()))
    } else {
        match convert_meshes(doc, acc, (k - 1) as nat) {
            Err(e) => Err(e),
            Ok((skel, subs)) => {
                let m = doc.meshes.unwrap()@[k - 1];
                let name = mesh_name(m);
                let nodes = doc.nodes.unwrap()@;
                match skin_of_mesh(nodes, k - 1) {
                    None => Ok((skel, subs)),
                    Some(si) => if !spec_keeps_mesh(encode_utf8(name)) {
                        Ok((skel, subs))
                    } else {
                        let skin = doc.skins.unwrap()@[si as int];
                        let names = skin_joint_names(nodes, skin);
                        let skel2 = match skel {
                            None => Some((names, skin_matrices(acc, skin), skin_parents(nodes, skin))),
                            Some(s) => Some(s),
                        };
                        if skel matches Some(s) && s.0 != names {
                            Err(mismatch_message(name))
                        } else {
                            match m.primitives {
                                None => Err("mesh has no primitives"@),
                                Some(ps) => match primitives_submeshes(name, ps@, acc, ps@.len()) {
                                    Err(e) => Err(e),
                                    Ok(more) => Ok((skel2, subs + more)),
                                },
                            }
                        }
                    },
                }
            },
        }
    }
}

/// The little-endian bytes of `u32` values, one after the other.
pub open spec fn words_bytes(ws: Seq<u32>) -> Seq<u8>
    decreases ws.len(),
{
    if ws.len() == 0 {
        Seq::empty()
    } else {
        words_bytes(ws.drop_last()) + u32_le(ws.last())
    }
}

/// The little-endian bytes of `u16` values, one after the other.
pub open spec fn shorts_bytes(ws: Seq<u16>) -> Seq<u8>
    decreases ws.len(),
{
    if ws.len() == 0 {
        Seq::empty()
    } else {
        shorts_bytes(ws.drop_last()) + u16_le(ws.last())
    }
}

/// The first `w` values of each row, as little-endian `u32` bytes.
pub open spec fn rows_bytes(rows: Seq<Seq<u32>>, w: int) -> Seq<u8>
    decreases rows.len(),
{
    if rows.len() == 0 {
        Seq::empty()
    } else {
        rows_bytes(rows.drop_last(), w) + words_bytes(rows.last().subrange(0, w))
    }
}

/// The first four values of each row, as little-endian `u16` bytes.
pub open spec fn joint_rows_bytes(rows: Seq<Seq<u16>>) -> Seq<u8>
    decreases rows.len(),
{
    if rows.len() == 0 {
        Seq::empty()
    } else {
        joint_rows_bytes(rows.drop_last()) + shorts_bytes(rows.last().subrange(0, 4))
    }
}

/// The bytes of a submesh: name, vertex count, index count, then positions,
/// normals, texture coordinates, joints, weights and indices.
pub open spec fn submesh_bytes(s: SubmeshModel) -> Seq<u8> {
    encoded_string(s.name) + u32_le(s.positions.len() as u32) + u32_le(s.indices.len() as u32)
        + rows_bytes(s.positions, 3) + rows_bytes(s.normals, 3) + rows_bytes(s.uvs, 2)
        + joint_rows_bytes(s.joints) + rows_bytes(s.weights, 4) + words_bytes(s.indices)
}

/// The bytes of the submeshes, one after the other.
pub open spec fn submeshes_bytes(subs: Seq<SubmeshModel>) -> Seq<u8>
    decreases subs.len(),
{
    if subs.len() == 0 {
        Seq::empty()
    } else {
        submeshes_bytes(subs.drop_last()) + submesh_bytes(subs.last())
    }
}

/// The joints section: each name with its matrix, as far as both lists go.
pub open spec fn joints_bytes(names: Seq<Seq<char>>, mats: Seq<Seq<u32>>, k: nat) -> Seq<u8>
    decreases k,
{
    if k == 0 {
        Seq::empty()
    } else {
        joints_bytes(names, mats, (k - 1) as nat) + encoded_string(names[k - 1]) + words_bytes(mats[k - 1])
    }
}

/// The bytes of `DLMS`.
pub open spec fn dlms_magic() -> Seq<u8> {
    seq![68u8, 76u8, 77u8, 83u8]
}

/// The parent indices, as little-endian `i32` bytes.
pub open spec fn parents_bytes(ps: Seq<i32>) -> Seq<u8> {
    words_bytes(ps.map_values(|p: i32| p as u32))
}

/// The DLMS version 4 file: magic, version, joint count, joints, one parent
/// index per joint, submesh count, submeshes.
pub open spec fn dlms_bytes(skel: Skeleton, subs: Seq<SubmeshModel>) -> Seq<u8> {
    let n = if skel.0.len() < skel.1.len() {
        skel.0.len()
    } else {
        skel.1.len()
    };
    dlms_magic() + u32_le(4) + u32_le(skel.0.len() as u32) + joints_bytes(skel.0, skel.1, n)
        + parents_bytes(skel.2) + u32_le(subs.len() as u32) + submeshes_bytes(subs)
}

/// What the conversion gives: the DLMS bytes, or the message of the first
/// problem met.
pub open spec fn spec_convert(doc: GltfDoc, acc: Seq<Option<AccessorRows>>) -> Result<Seq<u8>, Seq<char>> {
    if doc.meshes is None {
        Err("glb has no meshes"@)
    } else if doc.nodes is None {
        Err("glb has no nodes"@)
    } else if doc.skins is None {
        Err("glb has no skins"@)
    } else {
        match convert_meshes(doc, acc, doc.meshes.unwrap()@.len()) {
            Err(e) => Err(e),
            Ok((None, _)) => Err("no thirdperson_body/gloves submeshes with a skin found"@),
            Ok((Some(skel), subs)) => if subs.len() == 0 {
                Err("no thirdperson_body/gloves submeshes found"@)
            } else {
                Ok(dlms_bytes(skel, subs))
            },
        }
    }
}


/// Whether every row has at least `w` values.
pub open spec fn rows_wide(rows: Seq<Seq<u32>>, w: int) -> bool {
    forall|r: int| 0 <= r < rows.len() ==> (#[trigger] rows[r]).len() >= w
}

/// Whether every row of a submesh is wide enough to be written.
pub open spec fn submesh_writable(s: SubmeshModel) -> bool {
    &&& rows_wide(s.positions, 3)
    &&& rows_wide(s.normals, 3)
    &&& rows_wide(s.uvs, 2)
    &&& forall|r: int| 0 <= r < s.joints.len() ==> (#[trigger] s.joints[r]).len() >= 4
    &&& rows_wide(s.weights, 4)
}

fn push_words(out: &mut Vec<u8>, row: &Vec<u32>, w: usize)
    requires
        w <= row@.len(),
    ensures
        final(out)@ == old(out)@ + words_bytes(row@.subrange(0, w as int)),
{
    let mut j: usize = 0;
    while j < w
        invariant
            j <= w <= row@.len(),
            out@ == old(out)@ + words_bytes(row@.subrange(0, j as int)),
        decreases w - j,
    {
        let ghost before = out@;
        push_u32_le(out, row[j]);
        assert(row@.subrange(0, j + 1).drop_last() =~= row@.subrange(0, j as int));
        assert(out@ =~= old(out)@ + words_bytes(row@.subrange(0, j + 1)));
        j += 1;
    }
}

fn push_shorts(out: &mut Vec<u8>, row: &Vec<u16>)
    requires
        4 <= row@.len(),
    ensures
        final(out)@ == old(out)@ + shorts_bytes(row@.subrange(0, 4)),
{
    let mut j: usize = 0;
    while j < 4
        invariant
            j <= 4 <= row@.len(),
            out@ == old(out)@ + shorts_bytes(row@.subrange(0, j as int)),
        decreases 4 - j,
    {
        push_u16_le(out, row[j]);
        assert(row@.subrange(0, j + 1).drop_last() =~= row@.subrange(0, j as int));
        assert(out@ =~= old(out)@ + shorts_bytes(row@.subrange(0, j + 1)));
        j += 1;
    }
}

/// Writes the first `w` values of each row; `false`, with something
/// written, when a row is shorter.
fn push_rows(out: &mut Vec<u8>, rows: &Vec<Vec<u32>>, w: usize) -> (ok: bool)
    ensures
        ok == rows_wide(rows@.map_values(|r: Vec<u32>| r@), w as int),
        ok ==> final(out)@ == old(out)@ + rows_bytes(rows@.map_values(|r: Vec<u32>| r@), w as int),
        final(out)@.len() >= old(out)@.len(),
{
    let ghost view = rows@.map_values(|r: Vec<u32>| r@);
    let mut k: usize = 0;
    while k < rows.len()
        invariant
            k <= rows@.len(),
            view == rows@.map_values(|r: Vec<u32>| r@),
            rows_wide(view.subrange(0, k as int), w as int),
            out@ == old(out)@ + rows_bytes(view.subrange(0, k as int), w as int),
        decreases rows@.len() - k,
    {
        let row = &rows[k];
        assert(row@ == view[k as int]);
        if row.len() < w {
            assert(!rows_wide(view, w as int)) by {
                assert(view[k as int].len() < w);
            }
            return false;
        }
        push_words(out, row, w);
        assert(view.subrange(0, k + 1).drop_last() =~= view.subrange(0, k as int));
        k += 1;
    }
    assert(view.subrange(0, k as int) =~= view);
    true
}

/// Writes the first four values of each joint row; `false` when a row is
/// shorter.
fn push_joint_rows(out: &mut Vec<u8>, rows: &Vec<Vec<u16>>) -> (ok: bool)
    ensures
        ok == (forall|r: int| 0 <= r < rows@.len() ==> (#[trigger] rows@[r])@.len() >= 4),
        ok ==> final(out)@ == old(out)@ + joint_rows_bytes(rows@.map_values(|r: Vec<u16>| r@)),
        final(out)@.len() >= old(out)@.len(),
{
    let ghost view = rows@.map_values(|r: Vec<u16>| r@);
    let mut k: usize = 0;
    while k < rows.len()
        invariant
            k <= rows@.len(),
            view == rows@.map_values(|r: Vec<u16>| r@),
            forall|r: int| 0 <= r < k ==> (#[trigger] rows@[r])@.len() >= 4,
            out@ == old(out)@ + joint_rows_bytes(view.subrange(0, k as int)),
        decreases rows@.len() - k,
    {
        let row = &rows[k];
        if row.len() < 4 {
            return false;
        }
        push_shorts(out, row);
        assert(view.subrange(0, k + 1).drop_last() =~= view.subrange(0, k as int));
        k += 1;
    }
    assert(view.subrange(0, k as int) =~= view);
    true
}

/// Writes `n` copies of a row of `w` values.
fn push_repeated(out: &mut Vec<u8>, row: &Vec<u32>, n: usize)
    ensures
        final(out)@ == old(out)@ + rows_bytes(Seq::new(n as nat, |v: int| row@), row@.len() as int),
{
    let mut k: usize = 0;
    while k < n
        invariant
            k <= n,
            out@ == old(out)@ + rows_bytes(Seq::new(k as nat, |v: int| row@), row@.len() as int),
        decreases n - k,
    {
        push_words(out, row, row.len());
        assert(row@.subrange(0, row@.len() as int) =~= row@);
        assert(Seq::new((k + 1) as nat, |v: int| row@).drop_last() =~= Seq::new(k as nat, |v: int| row@));
        k += 1;
    }
}


/// Whether the accessor a primitive may name exists and was decoded.
pub open spec fn opt_accessor_ok(acc: Seq<Option<AccessorRows>>, i: Option<u64>) -> bool {
    match i {
        Some(i) => accessor_ok(acc, i),
        None => true,
    }
}

/// Whether every accessor a primitive with positions names exists and was
/// decoded.
pub open spec fn primitive_accessors_ok(p: GltfPrimitive, acc: Seq<Option<AccessorRows>>) -> bool {
    &&& opt_accessor_ok(acc, p.position)
    &&& opt_accessor_ok(acc, p.normal)
    &&& opt_accessor_ok(acc, p.texcoord)
    &&& opt_accessor_ok(acc, p.joints)
    &&& opt_accessor_ok(acc, p.weights)
    &&& opt_accessor_ok(acc, p.indices)
}

fn push_zero_joints(out: &mut Vec<u8>, n: usize)
    ensures
        final(out)@ == old(out)@ + joint_rows_bytes(Seq::new(n as nat, |v: int| seq![0u16, 0u16, 0u16, 0u16])),
{
    let mut k: usize = 0;
    while k < n
        invariant
            k <= n,
            out@ == old(out)@ + joint_rows_bytes(Seq::new(k as nat, |v: int| seq![0u16, 0u16, 0u16, 0u16])),
        decreases n - k,
    {
        let ghost before = out@;
        push_u16_le(out, 0);
        push_u16_le(out, 0);
        push_u16_le(out, 0);
        push_u16_le(out, 0);
        let ghost z = seq![0u16, 0u16, 0u16, 0u16];
        assert(Seq::new((k + 1) as nat, |v: int| z).drop_last() =~= Seq::new(k as nat, |v: int| z));
        assert(z.subrange(0, 4) =~= z);
        assert(z.drop_last().drop_last().drop_last().drop_last() =~= Seq::<u16>::empty());
        assert(shorts_bytes(z) =~= u16_le(0) + u16_le(0) + u16_le(0) + u16_le(0)) by {
            reveal_with_fuel(shorts_bytes, 5);
            assert(z.drop_last() =~= seq![0u16, 0u16, 0u16]);
            assert(z.drop_last().drop_last() =~= seq![0u16, 0u16]);
            assert(z.drop_last().drop_last().drop_last() =~= seq![0u16]);
        }
        assert(out@ =~= before + shorts_bytes(z));
        k += 1;
    }
}

fn push_first_ints(out: &mut Vec<u8>, rows: &Vec<Vec<u32>>)
    requires
        forall|r: int| 0 <= r < rows@.len() ==> (#[trigger] rows@[r])@.len() >= 1,
    ensures
        final(out)@ == old(out)@ + words_bytes(rows@.map_values(|r: Vec<u32>| r@[0])),
{
    let ghost view = rows@.map_values(|r: Vec<u32>| r@[0]);
    let mut k: usize = 0;
    while k < rows.len()
        invariant
            k <= rows@.len(),
            view == rows@.map_values(|r: Vec<u32>| r@[0]),
            forall|r: int| 0 <= r < rows@.len() ==> (#[trigger] rows@[r])@.len() >= 1,
            out@ == old(out)@ + words_bytes(view.subrange(0, k as int)),
        decreases rows@.len() - k,
    {
        push_u32_le(out, rows[k][0]);
        assert(view.subrange(0, k + 1).drop_last() =~= view.subrange(0, k as int));
        k += 1;
    }
    assert(view.subrange(0, k as int) =~= view);
}

fn push_counting(out: &mut Vec<u8>, n: usize)
    ensures
        final(out)@ == old(out)@ + words_bytes(Seq::new(n as nat, |v: int| v as u32)),
{
    let mut k: usize = 0;
    while k < n
        invariant
            k <= n,
            out@ == old(out)@ + words_bytes(Seq::new(k as nat, |v: int| v as u32)),
        decreases n - k,
    {
        push_u32_le(out, k as u32);
        assert(Seq::new((k + 1) as nat, |v: int| v as u32).drop_last() =~= Seq::new(k as nat, |v: int| v as u32));
        k += 1;
    }
}

fn accessor<'a>(acc: &'a Vec<Option<AccessorRows>>, i: u64) -> (r: &'a AccessorRows)
    requires
        accessor_ok(acc@, i),
    ensures
        Some(*r) == acc@[i as int],
{
    let len = acc.len();
    assert(i < len);
    let k: usize = i as usize;
    match &acc[k] {
        Some(a) => a,
        None => {
            assert(false);
            &acc[k].as_ref().unwrap()
        },
    }
}

/// Writes the vertex attributes after the positions; `false` when a row
/// is too short.
#[verifier::rlimit(40)]
fn write_attributes(out: &mut Vec<u8>, p: &GltfPrimitive, acc: &Vec<Option<AccessorRows>>, n: usize) -> (ok: bool)
    requires
        primitive_accessors_ok(*p, acc@),
    ensures
        ok == (rows_wide(normal_rows(*p, acc@, n as nat), 3) && rows_wide(uv_rows(*p, acc@, n as nat), 2)
            && (forall|r: int| 0 <= r < joint_rows(*p, acc@, n as nat).len() ==> (#[trigger] joint_rows(*p, acc@, n as nat)[r]).len() >= 4)
            && rows_wide(weight_rows(*p, acc@, n as nat), 4)),
        ok ==> final(out)@ == old(out)@ + rows_bytes(normal_rows(*p, acc@, n as nat), 3) + rows_bytes(
            uv_rows(*p, acc@, n as nat),
            2,
        ) + joint_rows_bytes(joint_rows(*p, acc@, n as nat)) + rows_bytes(weight_rows(*p, acc@, n as nat), 4)
            + words_bytes(index_values(*p, acc@, n as nat)),
        final(out)@.len() >= old(out)@.len(),
{
    let ghost start = out@;
    let ok2 = match p.normal {
        Some(i) => {
            let a = accessor(acc, i);
            assert(a.floats@.map_values(|r: Vec<u32>| r@) == normal_rows(*p, acc@, n as nat));
            push_rows(out, &a.floats, 3)
        },
        None => {
            let row: Vec<u32> = vec![0, 0, ONE_BITS];
            assert(row@ =~= seq![0u32, 0u32, ONE_BITS]);
            push_repeated(out, &row, n);
            assert(rows_wide(Seq::new(n as nat, |v: int| seq![0u32, 0u32, ONE_BITS]), 3));
            true
        },
    };
    let ghost a1 = out@;
    let ok3 = match p.texcoord {
        Some(i) => {
            let a = accessor(acc, i);
            assert(a.floats@.map_values(|r: Vec<u32>| r@) == uv_rows(*p, acc@, n as nat));
            push_rows(out, &a.floats, 2)
        },
        None => {
            let row: Vec<u32> = vec![0, 0];
            assert(row@ =~= seq![0u32, 0u32]);
            push_repeated(out, &row, n);
            assert(rows_wide(Seq::new(n as nat, |v: int| seq![0u32, 0u32]), 2));
            true
        },
    };
    let ghost a2 = out@;
    let ok4 = match p.joints {
        Some(i) => {
            let a = accessor(acc, i);
            let ghost jv = a.shorts@.map_values(|r: Vec<u16>| r@);
            assert(jv == joint_rows(*p, acc@, n as nat));
            let okj = push_joint_rows(out, &a.shorts);
            assert(okj == (forall|r: int| 0 <= r < jv.len() ==> (#[trigger] jv[r]).len() >= 4)) by {
                if okj {
                    assert forall|r: int| 0 <= r < jv.len() implies (#[trigger] jv[r]).len() >= 4 by {
                        assert(jv[r] == a.shorts@[r]@);
                    }
                } else {
                    let r = choose|r: int| 0 <= r < a.shorts@.len() && !((#[trigger] a.shorts@[r])@.len() >= 4);
                    assert(jv[r] == a.shorts@[r]@);
                }
            }
            okj
        },
        None => {
            push_zero_joints(out, n);
            proof {
                let zj = Seq::new(n as nat, |v: int| seq![0u16, 0u16, 0u16, 0u16]);
                assert(forall|r: int| 0 <= r < n ==> (#[trigger] zj[r]).len() >= 4);
            }
            true
        },
    };
    let ghost a3 = out@;
    let ok5 = match p.weights {
        Some(i) => {
            let a = accessor(acc, i);
            assert(a.floats@.map_values(|r: Vec<u32>| r@) == weight_rows(*p, acc@, n as nat));
            push_rows(out, &a.floats, 4)
        },
        None => {
            let row: Vec<u32> = vec![ONE_BITS, 0, 0, 0];
            assert(row@ =~= seq![ONE_BITS, 0u32, 0u32, 0u32]);
            push_repeated(out, &row, n);
            assert(rows_wide(Seq::new(n as nat, |v: int| seq![ONE_BITS, 0u32, 0u32, 0u32]), 4));
            true
        },
    };
    let ghost a4 = out@;
    match p.indices {
        Some(i) => {
            let a = accessor(acc, i);
            assert(acc@[i as int].unwrap() == *a);
            assert(a.ints@.map_values(|r: Vec<u32>| r@[0]) == index_values(*p, acc@, n as nat));
            push_first_ints(out, &a.ints)
        },
        None => push_counting(out, n),
    }
    let ok = ok2 && ok3 && ok4 && ok5;
    proof {
        if ok {
            assert(out@ =~= start + rows_bytes(normal_rows(*p, acc@, n as nat), 3) + rows_bytes(
                uv_rows(*p, acc@, n as nat),
                2,
            ) + joint_rows_bytes(joint_rows(*p, acc@, n as nat)) + rows_bytes(weight_rows(*p, acc@, n as nat), 4)
                + words_bytes(index_values(*p, acc@, n as nat)));
        }
    }
    ok
}

/// Writes the submesh of a primitive that has positions; `false` when one
/// of its rows is too short to write, in which case what was written is
/// incomplete.
#[verifier::rlimit(100)]
#[verifier::spinoff_prover]
fn write_primitive(out: &mut Vec<u8>, name: &String, p: &GltfPrimitive, acc: &Vec<Option<AccessorRows>>) -> (ok: bool)
    requires
        p.position is Some,
        primitive_accessors_ok(*p, acc@),
    ensures
        primitive_submesh(name@, *p, acc@) matches Ok(s) && ok == submesh_writable(s) && (ok ==> final(out)@
            == old(out)@ + submesh_bytes(s)),
        final(out)@.len() >= old(out)@.len() + 12,
{
    let ghost start = out@;
    let ghost s = primitive_submesh(name@, *p, acc@)->Ok_0;
    write_string(out, name.as_str());
    let positions = &accessor(acc, p.position.unwrap()).floats;
    let n = positions.len();
    push_u32_le(out, n as u32);
    let index_count: usize = match p.indices {
        Some(i) => accessor(acc, i).ints.len(),
        None => n,
    };
    push_u32_le(out, index_count as u32);
    let ghost head = out@;
    assert(head == start + encoded_string(name@) + u32_le(s.positions.len() as u32) + u32_le(s.indices.len() as u32));
    assert(positions@.map_values(|r: Vec<u32>| r@) == s.positions);
    let ok1 = push_rows(out, positions, 3);
    let ghost mid = out@;
    let ok2 = write_attributes(out, p, acc, n);
    let ghost tail = out@;
    let ok = ok1 && ok2;
    proof {
        if ok {
            assert(mid == head + rows_bytes(s.positions, 3));
            assert(tail == mid + rows_bytes(s.normals, 3) + rows_bytes(s.uvs, 2) + joint_rows_bytes(s.joints)
                + rows_bytes(s.weights, 4) + words_bytes(s.indices));
            assert(out@ =~= start + submesh_bytes(s));
        }
    }
    ok
}


fn digit_str(d: u64) -> (r: &'static str)
    requires
        d < 10,
    ensures
        r@ == seq![digit_char(d as int)],
{
    match d {
        0 => {
            proof {
                reveal_strlit("0");
            }
            "0"
        },
        1 => {
            proof {
                reveal_strlit("1");
            }
            "1"
        },
        2 => {
            proof {
                reveal_strlit("2");
            }
            "2"
        },
        3 => {
            proof {
                reveal_strlit("3");
            }
            "3"
        },
        4 => {
            proof {
                reveal_strlit("4");
            }
            "4"
        },
        5 => {
            proof {
                reveal_strlit("5");
            }
            "5"
        },
        6 => {
            proof {
                reveal_strlit("6");
            }
            "6"
        },
        7 => {
            proof {
                reveal_strlit("7");
            }
            "7"
        },
        8 => {
            proof {
                reveal_strlit("8");
            }
            "8"
        },
        _ => {
            proof {
                reveal_strlit("9");
            }
            "9"
        },
    }
}

/// The decimal text of a number.
pub fn decimal_string(n: u64) -> (r: String)
    ensures
        r@ == decimal_chars(n as nat),
    decreases n,
{
    if n < 10 {
        String::from_str(digit_str(n))
    } else {
        decimal_string(n / 10).concat(digit_str(n % 10))
    }
}

fn find_skin(nodes: &Vec<GltfNode>, m: usize) -> (r: Option<u64>)
    ensures
        r == skin_of_mesh(nodes@, m as int),
{
    let mut k: usize = nodes.len();
    assert(nodes@.subrange(0, k as int) =~= nodes@);
    while k > 0
        invariant
            k <= nodes@.len(),
            skin_of_mesh(nodes@, m as int) == skin_of_mesh(nodes@.subrange(0, k as int), m as int),
        decreases k,
    {
        let node = &nodes[k - 1];
        let ghost pre = nodes@.subrange(0, k as int);
        assert(pre.last() == nodes@[k - 1]);
        assert(pre.drop_last() =~= nodes@.subrange(0, k - 1));
        if node.mesh == Some(m as u64) && node.skin.is_some() {
            return node.skin;
        }
        k -= 1;
    }
    None
}

fn string_copy(s: &String) -> (r: String)
    ensures
        r@ == s@,
{
    String::from_str(s.as_str())
}

fn joint_names(nodes: &Vec<GltfNode>, joints: &Vec<u64>) -> (r: Vec<String>)
    requires
        forall|j: int| 0 <= j < joints@.len() ==> #[trigger] joints@[j] < nodes@.len(),
    ensures
        r@.map_values(|s: String| s@) == joints@.map_values(|n: u64| joint_label(nodes@, n)),
{
    let mut out: Vec<String> = Vec::new();
    let mut k: usize = 0;
    while k < joints.len()
        invariant
            k <= joints@.len(),
            forall|j: int| 0 <= j < joints@.len() ==> #[trigger] joints@[j] < nodes@.len(),
            out@.map_values(|s: String| s@) == joints@.subrange(0, k as int).map_values(|n: u64| joint_label(nodes@, n)),
        decreases joints@.len() - k,
    {
        let n = joints[k];
        assert(n < nodes@.len());
        let len = nodes.len();
        let node = &nodes[n as usize];
        let label = match &node.name {
            Some(name) => string_copy(name),
            None => {
                proof {
                    reveal_strlit("joint_");
                }
                String::from_str("joint_").concat(decimal_string(n).as_str())
            },
        };
        assert(label@ == joint_label(nodes@, n));
        let ghost prev = out@;
        let ghost lv = label@;
        out.push(label);
        assert(out@.map_values(|s: String| s@) =~= prev.map_values(|s: String| s@).push(lv));
        assert(joints@.subrange(0, k + 1) =~= joints@.subrange(0, k as int).push(n));
        assert(out@.map_values(|s: String| s@) =~= joints@.subrange(0, k + 1).map_values(|n: u64| joint_label(nodes@, n)));
        k += 1;
    }
    assert(joints@.subrange(0, k as int) =~= joints@);
    out
}

fn holds_node(v: &Vec<u64>, x: u64) -> (r: bool)
    ensures
        r == v@.contains(x),
{
    let mut i: usize = 0;
    while i < v.len()
        invariant
            i <= v@.len(),
            forall|j: int| 0 <= j < i ==> v@[j] != x,
        decreases v@.len() - i,
    {
        if v[i] == x {
            assert(v@[i as int] == x);
            return true;
        }
        i += 1;
    }
    false
}

proof fn lemma_first_parent_sticks(nodes: Seq<GltfNode>, joints: Seq<u64>, child: u64, j: nat, n: nat)
    requires
        j <= n,
        first_parent(nodes, joints, child, j) is Some,
    ensures
        first_parent(nodes, joints, child, n) == first_parent(nodes, joints, child, j),
    decreases n - j,
{
    if j < n {
        lemma_first_parent_sticks(nodes, joints, child, j, (n - 1) as nat);
    }
}

/// The parent joint of node `child`: the index of the first joint whose
/// node lists it among its children, or `-1`.
fn joint_parent(nodes: &Vec<GltfNode>, joints: &Vec<u64>, child: u64) -> (r: i32)
    requires
        forall|j: int| 0 <= j < joints@.len() ==> #[trigger] joints@[j] < nodes@.len(),
    ensures
        r == match first_parent(nodes@, joints@, child, joints@.len()) {
            Some(p) => p as i32,
            None => -1i32,
        },
{
    let mut j: usize = 0;
    while j < joints.len()
        invariant
            j <= joints@.len(),
            forall|q: int| 0 <= q < joints@.len() ==> #[trigger] joints@[q] < nodes@.len(),
            first_parent(nodes@, joints@, child, j as nat) is None,
        decreases joints@.len() - j,
    {
        let n = joints[j];
        assert(n < nodes@.len());
        let len = nodes.len();
        if holds_node(&nodes[n as usize].children, child) {
            proof {
                assert(first_parent(nodes@, joints@, child, (j + 1) as nat) == Some(j as nat));
                lemma_first_parent_sticks(nodes@, joints@, child, (j + 1) as nat, joints@.len());
            }
            return j as i32;
        }
        j += 1;
    }
    -1
}

/// The parent joint of each joint of a skin.
fn joint_parents(nodes: &Vec<GltfNode>, skin: &GltfSkin, joints: &Vec<u64>) -> (r: Vec<i32>)
    requires
        skin.joints == Some(*joints),
        forall|j: int| 0 <= j < joints@.len() ==> #[trigger] joints@[j] < nodes@.len(),
    ensures
        r@ == skin_parents(nodes@, *skin),
{
    let mut out: Vec<i32> = Vec::new();
    let mut k: usize = 0;
    while k < joints.len()
        invariant
            k <= joints@.len(),
            skin.joints == Some(*joints),
            forall|j: int| 0 <= j < joints@.len() ==> #[trigger] joints@[j] < nodes@.len(),
            out@ == skin_parents(nodes@, *skin).subrange(0, k as int),
        decreases joints@.len() - k,
    {
        let p = joint_parent(nodes, joints, joints[k]);
        out.push(p);
        assert(out@ =~= skin_parents(nodes@, *skin).subrange(0, k + 1));
        k += 1;
    }
    assert(skin_parents(nodes@, *skin).subrange(0, k as int) =~= skin_parents(nodes@, *skin));
    out
}

fn names_equal(a: &Vec<String>, b: &Vec<String>) -> (r: bool)
    ensures
        r == (a@.map_values(|s: String| s@) == b@.map_values(|s: String| s@)),
{
    let ghost av = a@.map_values(|s: String| s@);
    let ghost bv = b@.map_values(|s: String| s@);
    if a.len() != b.len() {
        assert(av.len() != bv.len());
        return false;
    }
    let mut k: usize = 0;
    while k < a.len()
        invariant
            k <= a@.len(),
            a@.len() == b@.len(),
            av == a@.map_values(|s: String| s@),
            bv == b@.map_values(|s: String| s@),
            forall|j: int| 0 <= j < k ==> av[j] == bv[j],
        decreases a@.len() - k,
    {
        if !crate::text::str_eq(a[k].as_str(), b[k].as_str()) {
            assert(av[k as int] != bv[k as int]);
            return false;
        }
        k += 1;
    }
    assert(av =~= bv);
    true
}

/// Whether the skin a kept mesh uses can be read: it exists, lists its
/// joints as nodes that exist, and its inverse bind matrices, if it names
/// them, come from a decoded accessor with at most 16 values a row.
pub open spec fn skin_readable(doc: GltfDoc, acc: Seq<Option<AccessorRows>>, si: u64) -> bool {
    let nodes = doc.nodes.unwrap()@;
    let skins = doc.skins.unwrap()@;
    &&& si < skins.len()
    &&& skins[si as int].joints is Some
    &&& forall|j: int|
        0 <= j < skins[si as int].joints.unwrap()@.len() ==> #[trigger] skins[si as int].joints.unwrap()@[j]
            < nodes.len()
    &&& match skins[si as int].inverse_bind_matrices {
        Some(i) => accessor_ok(acc, i) && forall|r: int|
            0 <= r < acc[i as int].unwrap().floats@.len() ==> (#[trigger] acc[i as int].unwrap().floats@[r])@.len()
                <= 16,
        None => true,
    }
}

fn pad_row(row: &Vec<u32>) -> (r: Vec<u32>)
    requires
        row@.len() <= 16,
    ensures
        r@ == pad16(row@),
{
    let mut out: Vec<u32> = Vec::new();
    let mut j: usize = 0;
    while j < 16
        invariant
            j <= 16,
            row@.len() <= 16,
            out@ == pad16(row@).subrange(0, j as int),
        decreases 16 - j,
    {
        out.push(if j < row.len() {
            row[j]
        } else {
            0
        });
        assert(out@ =~= pad16(row@).subrange(0, j + 1));
        j += 1;
    }
    assert(pad16(row@).subrange(0, 16) =~= pad16(row@));
    out
}

fn skin_mats(acc: &Vec<Option<AccessorRows>>, skin: &GltfSkin, joint_count: usize) -> (r: Vec<Vec<u32>>)
    requires
        skin.joints is Some,
        joint_count == skin.joints.unwrap()@.len(),
        match skin.inverse_bind_matrices {
            Some(i) => accessor_ok(acc@, i) && forall|r: int|
                0 <= r < acc@[i as int].unwrap().floats@.len() ==> (#[trigger] acc@[i as int].unwrap().floats@[r])@.len()
                    <= 16,
            None => true,
        },
    ensures
        r@.map_values(|m: Vec<u32>| m@) == skin_matrices(acc@, *skin),
        forall|j: int| 0 <= j < r@.len() ==> (#[trigger] r@[j])@.len() == 16,
{
    let mut out: Vec<Vec<u32>> = Vec::new();
    match skin.inverse_bind_matrices {
        Some(i) => {
            let a = accessor(acc, i);
            assert(acc@[i as int].unwrap() == *a);
            let ghost fv = a.floats@.map_values(|r: Vec<u32>| r@);
            let mut k: usize = 0;
            while k < a.floats.len()
                invariant
                    k <= a.floats@.len(),
                    fv == a.floats@.map_values(|r: Vec<u32>| r@),
                    forall|r: int| 0 <= r < a.floats@.len() ==> (#[trigger] a.floats@[r])@.len() <= 16,
                    out@.map_values(|m: Vec<u32>| m@) == fv.subrange(0, k as int).map_values(|r: Seq<u32>| pad16(r)),
                    forall|j: int| 0 <= j < out@.len() ==> (#[trigger] out@[j])@.len() == 16,
                decreases a.floats@.len() - k,
            {
                let row = pad_row(&a.floats[k]);
                let ghost prev = out@;
                let ghost rv = row@;
                out.push(row);
                assert(out@.map_values(|m: Vec<u32>| m@) =~= prev.map_values(|m: Vec<u32>| m@).push(rv));
                assert(fv.subrange(0, k + 1) =~= fv.subrange(0, k as int).push(fv[k as int]));
                assert(out@.map_values(|m: Vec<u32>| m@) =~= fv.subrange(0, k + 1).map_values(|r: Seq<u32>| pad16(r)));
                k += 1;
            }
            assert(fv.subrange(0, k as int) =~= fv);
        },
        None => {
            let mut k: usize = 0;
            while k < joint_count
                invariant
                    k <= joint_count,
                    out@.map_values(|m: Vec<u32>| m@) == Seq::new(k as nat, |j: int| identity_bits()),
                    forall|j: int| 0 <= j < out@.len() ==> (#[trigger] out@[j])@.len() == 16,
                decreases joint_count - k,
            {
                let id: Vec<u32> = vec![ONE_BITS, 0, 0, 0, 0, ONE_BITS, 0, 0, 0, 0, ONE_BITS, 0, 0, 0, 0, ONE_BITS];
                assert(id@ =~= identity_bits());
                let ghost prev = out@;
                out.push(id);
                assert(out@.map_values(|m: Vec<u32>| m@) =~= prev.map_values(|m: Vec<u32>| m@).push(identity_bits()));
                assert(out@.map_values(|m: Vec<u32>| m@) =~= Seq::new((k + 1) as nat, |j: int| identity_bits()));
                k += 1;
            }
        },
    }
    out
}


/// Whether the first `j` primitives of a kept mesh can be read: each one
/// reached (no earlier primitive lacked positions) that has positions names
/// decoded accessors.
pub open spec fn primitives_readable(name: Seq<char>, ps: Seq<GltfPrimitive>, acc: Seq<Option<AccessorRows>>, j: nat) -> bool
    decreases j,
{
    j == 0 || (primitives_readable(name, ps, acc, (j - 1) as nat) && (primitives_submeshes(
        name,
        ps,
        acc,
        (j - 1) as nat,
    ) is Err || ps[j - 1].position is None || primitive_accessors_ok(ps[j - 1], acc)))
}

/// Whether mesh `k` can be read, given what the meshes before it made:
/// when it is kept and has a skin, the skin can be read, and unless its
/// joints differ from the skeleton, its primitives can be read.
pub open spec fn mesh_readable(doc: GltfDoc, acc: Seq<Option<AccessorRows>>, k: int, skel: Option<Skeleton>) -> bool {
    let m = doc.meshes.unwrap()@[k];
    let name = mesh_name(m);
    let nodes = doc.nodes.unwrap()@;
    match skin_of_mesh(nodes, k) {
        None => true,
        Some(si) => !spec_keeps_mesh(encode_utf8(name)) || (skin_readable(doc, acc, si) && ((skel matches Some(
            s,
        ) && s.0 != skin_joint_names(nodes, doc.skins.unwrap()@[si as int])) || match m.primitives {
            None => true,
            Some(ps) => primitives_readable(name, ps@, acc, ps@.len()),
        })),
    }
}

/// Whether the first `k` meshes can be read: each one reached (no earlier
/// error) can be.
pub open spec fn meshes_readable(doc: GltfDoc, acc: Seq<Option<AccessorRows>>, k: nat) -> bool
    decreases k,
{
    k == 0 || (meshes_readable(doc, acc, (k - 1) as nat) && match convert_meshes(doc, acc, (k - 1) as nat) {
        Err(_) => true,
        Ok((skel, _)) => mesh_readable(doc, acc, k - 1, skel),
    })
}

/// Whether the conversion runs to its end: every skin, node and accessor it
/// reaches is there, and when it succeeds every row it writes is wide
/// enough.
pub open spec fn conversion_defined(doc: GltfDoc, acc: Seq<Option<AccessorRows>>) -> bool {
    doc.meshes is Some && doc.nodes is Some && doc.skins is Some ==> {
        let n = doc.meshes.unwrap()@.len();
        &&& meshes_readable(doc, acc, n)
        &&& (convert_meshes(doc, acc, n) matches Ok((Some(_), subs)) ==> forall|i: int|
            0 <= i < subs.len() ==> submesh_writable(#[trigger] subs[i]))
    }
}

proof fn lemma_readable_prefix(doc: GltfDoc, acc: Seq<Option<AccessorRows>>, k: nat, n: nat)
    requires
        k <= n,
        meshes_readable(doc, acc, n),
    ensures
        meshes_readable(doc, acc, k),
    decreases n - k,
{
    if k < n {
        lemma_readable_prefix(doc, acc, k, (n - 1) as nat);
    }
}

proof fn lemma_convert_err_sticks(doc: GltfDoc, acc: Seq<Option<AccessorRows>>, k: nat, n: nat)
    requires
        k <= n,
        convert_meshes(doc, acc, k) is Err,
    ensures
        convert_meshes(doc, acc, n) == convert_meshes(doc, acc, k),
    decreases n - k,
{
    if k < n {
        lemma_convert_err_sticks(doc, acc, k, (n - 1) as nat);
    }
}

proof fn lemma_prims_readable_prefix(name: Seq<char>, ps: Seq<GltfPrimitive>, acc: Seq<Option<AccessorRows>>, j: nat, n: nat)
    requires
        j <= n,
        primitives_readable(name, ps, acc, n),
    ensures
        primitives_readable(name, ps, acc, j),
    decreases n - j,
{
    if j < n {
        lemma_prims_readable_prefix(name, ps, acc, j, (n - 1) as nat);
    }
}

proof fn lemma_prims_err_sticks(name: Seq<char>, ps: Seq<GltfPrimitive>, acc: Seq<Option<AccessorRows>>, j: nat, n: nat)
    requires
        j <= n,
        primitives_submeshes(name, ps, acc, j) is Err,
    ensures
        primitives_submeshes(name, ps, acc, n) == primitives_submeshes(name, ps, acc, j),
    decreases n - j,
{
    if j < n {
        lemma_prims_err_sticks(name, ps, acc, j, (n - 1) as nat);
    }
}



proof fn lemma_prims_readable_after_err(name: Seq<char>, ps: Seq<GltfPrimitive>, acc: Seq<Option<AccessorRows>>, j: nat, n: nat)
    requires
        j <= n,
        primitives_readable(name, ps, acc, j),
        primitives_submeshes(name, ps, acc, j) is Err,
    ensures
        primitives_readable(name, ps, acc, n),
    decreases n - j,
{
    if j < n {
        lemma_prims_readable_after_err(name, ps, acc, j, (n - 1) as nat);
        lemma_prims_err_sticks(name, ps, acc, j, (n - 1) as nat);
    }
}

proof fn lemma_readable_after_err(doc: GltfDoc, acc: Seq<Option<AccessorRows>>, k: nat, n: nat)
    requires
        k <= n,
        meshes_readable(doc, acc, k),
        convert_meshes(doc, acc, k) is Err,
    ensures
        meshes_readable(doc, acc, n),
    decreases n - k,
{
    if k < n {
        lemma_readable_after_err(doc, acc, k, (n - 1) as nat);
        lemma_convert_err_sticks(doc, acc, k, (n - 1) as nat);
    }
}

/// Whether some submesh has a row too short to write.
pub open spec fn some_unwritable(subs: Seq<SubmeshModel>) -> bool {
    exists|i: int| 0 <= i < subs.len() && !submesh_writable(#[trigger] subs[i])
}

fn check_accessor(acc: &Vec<Option<AccessorRows>>, i: u64) -> (r: bool)
    ensures
        r == accessor_ok(acc@, i),
{
    if i >= acc.len() as u64 {
        return false;
    }
    let k: usize = i as usize;
    match &acc[k] {
        None => false,
        Some(a) => {
            let mut j: usize = 0;
            while j < a.ints.len()
                invariant
                    j <= a.ints@.len(),
                    k < acc@.len(),
                    k == i,
                    acc@[k as int] == Some(*a),
                    forall|r: int| 0 <= r < j ==> (#[trigger] a.ints@[r])@.len() >= 1,
                decreases a.ints@.len() - j,
            {
                if a.ints[j].len() == 0 {
                    assert(acc@[i as int].unwrap().ints@[j as int]@.len() < 1);
                    return false;
                }
                j += 1;
            }
            true
        },
    }
}

fn check_opt(acc: &Vec<Option<AccessorRows>>, i: Option<u64>) -> (r: bool)
    ensures
        r == opt_accessor_ok(acc@, i),
{
    match i {
        Some(i) => check_accessor(acc, i),
        None => true,
    }
}

fn check_primitive(acc: &Vec<Option<AccessorRows>>, p: &GltfPrimitive) -> (r: bool)
    ensures
        r == primitive_accessors_ok(*p, acc@),
{
    check_opt(acc, p.position) && check_opt(acc, p.normal) && check_opt(acc, p.texcoord) && check_opt(
        acc,
        p.joints,
    ) && check_opt(acc, p.weights) && check_opt(acc, p.indices)
}

fn check_skin(nodes: &Vec<GltfNode>, skins: &Vec<GltfSkin>, acc: &Vec<Option<AccessorRows>>, si: u64) -> (r: bool)
    ensures
        r == skin_readable(GltfDoc { meshes: None, nodes: Some(*nodes), skins: Some(*skins) }, acc@, si),
{
    if si >= skins.len() as u64 {
        return false;
    }
    let skin = &skins[si as usize];
    assert(*skin == skins@[si as int]);
    let joints = match &skin.joints {
        None => {
            return false;
        },
        Some(j) => j,
    };
    let mut j: usize = 0;
    while j < joints.len()
        invariant
            j <= joints@.len(),
            si < skins@.len(),
            *skin == skins@[si as int],
            skin.joints == Some(*joints),
            forall|q: int| 0 <= q < j ==> #[trigger] joints@[q] < nodes@.len(),
        decreases joints@.len() - j,
    {
        if joints[j] >= nodes.len() as u64 {
            assert(!(skins@[si as int].joints.unwrap()@[j as int] < nodes@.len()));
            return false;
        }
        j += 1;
    }
    match skin.inverse_bind_matrices {
        None => true,
        Some(i) => {
            if !check_accessor(acc, i) {
                return false;
            }
            let a = accessor(acc, i);
            assert(acc@[i as int].unwrap() == *a);
            let mut q: usize = 0;
            while q < a.floats.len()
                invariant
                    q <= a.floats@.len(),
                    si < skins@.len(),
                    *skin == skins@[si as int],
                    skin.inverse_bind_matrices == Some(i),
                    accessor_ok(acc@, i),
                    acc@[i as int].unwrap() == *a,
                    forall|r: int| 0 <= r < q ==> (#[trigger] a.floats@[r])@.len() <= 16,
                decreases a.floats@.len() - q,
            {
                if a.floats[q].len() > 16 {
                    assert(acc@[i as int].unwrap().floats@[q as int]@.len() > 16);
                    return false;
                }
                q += 1;
            }
            true
        },
    }
}

/// Writes the submeshes of a kept mesh's primitives after those already
/// written, or stops at the first primitive without positions; `None` where
/// a primitive names an accessor that is missing or was not decoded.
fn write_primitives(
    body: &mut Vec<u8>,
    count: &mut usize,
    bad: &mut bool,
    name: &String,
    ps: &Vec<GltfPrimitive>,
    acc: &Vec<Option<AccessorRows>>,
    Ghost(subs): Ghost<Seq<SubmeshModel>>,
) -> (r: Option<Result<(), String>>)
    requires
        *old(count) == subs.len(),
        12 * subs.len() <= old(body)@.len(),
        !*old(bad) ==> old(body)@ == submeshes_bytes(subs),
        *old(bad) <==> some_unwritable(subs),
    ensures
        r is None <==> !primitives_readable(name@, ps@, acc@, ps@.len()),
        r is Some ==> match primitives_submeshes(name@, ps@, acc@, ps@.len()) {
            Err(e) => r matches Some(Err(x)) && x@ == e,
            Ok(more) => {
                &&& r matches Some(Ok(_))
                &&& *final(count) == subs.len() + more.len()
                &&& 12 * (subs.len() + more.len()) <= final(body)@.len()
                &&& !*final(bad) ==> final(body)@ == submeshes_bytes(subs + more)
                &&& *final(bad) <==> some_unwritable(subs + more)
            },
        },
{
    let ghost mut more: Seq<SubmeshModel> = Seq::empty();
    let mut j: usize = 0;
    while j < ps.len()
        invariant
            j <= ps@.len(),
            primitives_readable(name@, ps@, acc@, j as nat),
            primitives_submeshes(name@, ps@, acc@, j as nat) == Ok::<Seq<SubmeshModel>, Seq<char>>(more),
            *count == subs.len() + more.len(),
            12 * (subs.len() + more.len()) <= body@.len(),
            !*bad ==> body@ == submeshes_bytes(subs + more),
            *bad <==> some_unwritable(subs + more),
        decreases ps@.len() - j,
    {
        let p = &ps[j];
        if p.position.is_none() {
            proof {
                lemma_prims_err_sticks(name@, ps@, acc@, (j + 1) as nat, ps@.len());
                lemma_prims_readable_after_err(name@, ps@, acc@, (j + 1) as nat, ps@.len());
            }
            return Some(Err(String::from_str("primitive missing POSITION")));
        }
        if !check_primitive(acc, p) {
            proof {
                if primitives_readable(name@, ps@, acc@, ps@.len()) {
                    lemma_prims_readable_prefix(name@, ps@, acc@, (j + 1) as nat, ps@.len());
                }
            }
            return None;
        }
        let ghost sub = primitive_submesh(name@, *p, acc@)->Ok_0;
        let ghost before = body@;
        let ok = write_primitive(body, name, p, acc);
        proof {
            let all = subs + more.push(sub);
            let prev = subs + more;
            assert(all.drop_last() =~= prev);
            assert(all.last() == sub);
            assert forall|i: int| 0 <= i < prev.len() implies all[i] == prev[i] by {}
            if !ok {
                assert(!submesh_writable(all[all.len() - 1]));
            }
            if *bad {
                let i = choose|i: int| 0 <= i < prev.len() && !submesh_writable(#[trigger] prev[i]);
                assert(all[i] == prev[i]);
            }
            if some_unwritable(all) {
                let i = choose|i: int| 0 <= i < all.len() && !submesh_writable(#[trigger] all[i]);
                if i < prev.len() {
                    assert(prev[i] == all[i]);
                }
            }
        }
        if !ok {
            *bad = true;
        }
        let len = body.len();
        assert(12 * (subs.len() + more.len() + 1) <= len);
        *count = *count + 1;
        proof {
            more = more.push(sub);
        }
        j += 1;
    }
    Some(Ok(()))
}

/// The model of the skeleton held while converting.
pub open spec fn skel_view(s: Option<(Vec<String>, Vec<Vec<u32>>, Vec<i32>)>) -> Option<Skeleton> {
    match s {
        Some((n, m, p)) => Some((n@.map_values(|x: String| x@), m@.map_values(|x: Vec<u32>| x@), p@)),
        None => None,
    }
}


/// Converts mesh `k`, after the meshes before it made the skeleton `skel`
/// and the submeshes already written; `None` where reading it would fail.
#[verifier::rlimit(60)]
#[verifier::spinoff_prover]
fn convert_mesh(
    doc: &GltfDoc,
    acc: &Vec<Option<AccessorRows>>,
    k: usize,
    skel: &mut Option<(Vec<String>, Vec<Vec<u32>>, Vec<i32>)>,
    body: &mut Vec<u8>,
    count: &mut usize,
    bad: &mut bool,
    Ghost(subs): Ghost<Seq<SubmeshModel>>,
) -> (r: Option<Result<(), String>>)
    requires
        doc.meshes is Some,
        doc.nodes is Some,
        doc.skins is Some,
        k < doc.meshes.unwrap()@.len(),
        convert_meshes(*doc, acc@, k as nat) == Ok::<(Option<Skeleton>, Seq<SubmeshModel>), Seq<char>>(
            (skel_view(*old(skel)), subs),
        ),
        *old(skel) matches Some(sk) ==> forall|j: int| 0 <= j < sk.1@.len() ==> (#[trigger] sk.1@[j])@.len() == 16,
        *old(count) == subs.len(),
        12 * subs.len() <= old(body)@.len(),
        !*old(bad) ==> old(body)@ == submeshes_bytes(subs),
        *old(bad) <==> some_unwritable(subs),
    ensures
        r is None <==> !mesh_readable(*doc, acc@, k as int, skel_view(*old(skel))),
        r is Some ==> match convert_meshes(*doc, acc@, (k + 1) as nat) {
            Err(e) => r matches Some(Err(x)) && x@ == e,
            Ok((sk2, subs2)) => {
                &&& r matches Some(Ok(_))
                &&& skel_view(*final(skel)) == sk2
                &&& *final(skel) matches Some(sk) ==> forall|j: int|
                    0 <= j < sk.1@.len() ==> (#[trigger] sk.1@[j])@.len() == 16
                &&& *final(count) == subs2.len()
                &&& 12 * subs2.len() <= final(body)@.len()
                &&& !*final(bad) ==> final(body)@ == submeshes_bytes(subs2)
                &&& *final(bad) <==> some_unwritable(subs2)
            },
        },
{
    let meshes = doc.meshes.as_ref().unwrap();
    let nodes = doc.nodes.as_ref().unwrap();
    let skins = doc.skins.as_ref().unwrap();
    let m = &meshes[k];
    let name = match &m.name {
        Some(n) => string_copy(n),
        None => String::from_str("unnamed"),
    };
    assert(name@ == mesh_name(*m));
    let si = match find_skin(nodes, k) {
        None => {
            return Some(Ok(()));
        },
        Some(si) => si,
    };
    if !keeps_mesh(name.as_str()) {
        return Some(Ok(()));
    }
    if !check_skin(nodes, skins, acc, si) {
        return None;
    }
    assert(skin_readable(*doc, acc@, si));
    let len = skins.len();
    assert(si < len);
    let skin = &skins[si as usize];
    assert(*skin == skins@[si as int]);
    let joints = match &skin.joints {
        Some(j) => j,
        None => {
            return None;
        },
    };
    let names = joint_names(nodes, joints);
    let mats = skin_mats(acc, skin, joints.len());
    let ghost names_v = names@.map_values(|x: String| x@);
    assert(names_v == skin_joint_names(nodes@, *skin));
    let mismatch = match &*skel {
        Some(sk) => !names_equal(&sk.0, &names),
        None => false,
    };
    if mismatch {
        let msg = String::from_str("joint order mismatch in ").concat(name.as_str()).concat(
            ": submeshes do not share one skeleton as assumed",
        );
        return Some(Err(msg));
    }
    if skel.is_none() {
        let parents = joint_parents(nodes, skin, joints);
        *skel = Some((names, mats, parents));
    }
    let ps = match &m.primitives {
        Some(ps) => ps,
        None => {
            return Some(Err(String::from_str("mesh has no primitives")));
        },
    };
    write_primitives(body, count, bad, &name, ps, acc, Ghost(subs))
}

/// Converts the parts of a glTF export the converter reads into DLMS
/// version 4 bytes or the message of the first problem (see
/// `spec_convert`); `None` where the conversion cannot run to its end (see
/// `conversion_defined`).
pub fn gltf_to_dlms(doc: &GltfDoc, acc: &Vec<Option<AccessorRows>>) -> (r: Option<Result<Vec<u8>, String>>)
    ensures
        r is None <==> !conversion_defined(*doc, acc@),
        r is Some ==> match spec_convert(*doc, acc@) {
            Ok(b) => r matches Some(Ok(v)) && v@ == b,
            Err(e) => r matches Some(Err(x)) && x@ == e,
        },
{
    let meshes = match &doc.meshes {
        Some(m) => m,
        None => {
            return Some(Err(String::from_str("glb has no meshes")));
        },
    };
    if doc.nodes.is_none() {
        return Some(Err(String::from_str("glb has no nodes")));
    }
    if doc.skins.is_none() {
        return Some(Err(String::from_str("glb has no skins")));
    }
    let ghost total = meshes@.len();
    let mut skel: Option<(Vec<String>, Vec<Vec<u32>>, Vec<i32>)> = None;
    let mut body: Vec<u8> = Vec::new();
    let mut count: usize = 0;
    let mut bad = false;
    let ghost mut subs: Seq<SubmeshModel> = Seq::empty();
    let mut k: usize = 0;
    while k < meshes.len()
        invariant
            doc.meshes == Some(*meshes),
            doc.nodes is Some,
            doc.skins is Some,
            total == meshes@.len(),
            k <= total,
            meshes_readable(*doc, acc@, k as nat),
            convert_meshes(*doc, acc@, k as nat) == Ok::<(Option<Skeleton>, Seq<SubmeshModel>), Seq<char>>(
                (skel_view(skel), subs),
            ),
            skel matches Some(sk) ==> forall|j: int| 0 <= j < sk.1@.len() ==> (#[trigger] sk.1@[j])@.len() == 16,
            count == subs.len(),
            12 * subs.len() <= body@.len(),
            !bad ==> body@ == submeshes_bytes(subs),
            bad <==> some_unwritable(subs),
        decreases total - k,
    {
        let res = convert_mesh(doc, acc, k, &mut skel, &mut body, &mut count, &mut bad, Ghost(subs));
        match res {
            None => {
                proof {
                    if meshes_readable(*doc, acc@, total) {
                        lemma_readable_prefix(*doc, acc@, (k + 1) as nat, total);
                    }
                }
                return None;
            },
            Some(Err(e)) => {
                proof {
                    lemma_convert_err_sticks(*doc, acc@, (k + 1) as nat, total);
                    lemma_readable_after_err(*doc, acc@, (k + 1) as nat, total);
                }
                return Some(Err(e));
            },
            Some(Ok(())) => {},
        }
        proof {
            subs = convert_meshes(*doc, acc@, (k + 1) as nat)->Ok_0.1;
        }
        k += 1;
    }
    let sk = match skel {
        Some(sk) => sk,
        None => {
            return Some(Err(String::from_str("no thirdperson_body/gloves submeshes with a skin found")));
        },
    };
    if count == 0 {
        return Some(Err(String::from_str("no thirdperson_body/gloves submeshes found")));
    }
    if bad {
        return None;
    }
    proof {
        assert forall|i: int| 0 <= i < subs.len() implies submesh_writable(#[trigger] subs[i]) by {
            if !submesh_writable(subs[i]) {
                assert(some_unwritable(subs));
            }
        }
    }
    let (names, mats, parents) = sk;
    let ghost nv = names@.map_values(|x: String| x@);
    let ghost mv = mats@.map_values(|x: Vec<u32>| x@);
    let out = assemble(&names, &mats, &parents, count, body);
    assert(out@ =~= dlms_bytes((nv, mv, parents@), subs));
    Some(Ok(out))
}

fn push_parents(out: &mut Vec<u8>, parents: &Vec<i32>)
    ensures
        final(out)@ == old(out)@ + parents_bytes(parents@),
{
    let ghost pv = parents@.map_values(|p: i32| p as u32);
    let mut k: usize = 0;
    while k < parents.len()
        invariant
            k <= parents@.len(),
            pv == parents@.map_values(|p: i32| p as u32),
            out@ == old(out)@ + words_bytes(pv.subrange(0, k as int)),
        decreases parents@.len() - k,
    {
        push_u32_le(out, parents[k] as u32);
        assert(pv.subrange(0, k + 1).drop_last() =~= pv.subrange(0, k as int));
        k += 1;
    }
    assert(pv.subrange(0, k as int) =~= pv);
}

fn assemble(names: &Vec<String>, mats: &Vec<Vec<u32>>, parents: &Vec<i32>, count: usize, body: Vec<u8>) -> (out: Vec<u8>)
    requires
        forall|j: int| 0 <= j < mats@.len() ==> (#[trigger] mats@[j])@.len() == 16,
    ensures
        out@ == dlms_magic() + u32_le(4) + u32_le(names@.len() as u32) + joints_bytes(
            names@.map_values(|x: String| x@),
            mats@.map_values(|x: Vec<u32>| x@),
            (if names@.len() < mats@.len() {
                names@.len()
            } else {
                mats@.len()
            }) as nat,
        ) + parents_bytes(parents@) + u32_le(count as u32) + body@,
{
    let mut out: Vec<u8> = vec![68, 76, 77, 83];
    assert(out@ =~= dlms_magic());
    push_u32_le(&mut out, crate::dlms::DLMS_VERSION);
    push_u32_le(&mut out, names.len() as u32);
    let nj: usize = if names.len() < mats.len() {
        names.len()
    } else {
        mats.len()
    };
    let ghost nv = names@.map_values(|x: String| x@);
    let ghost mv = mats@.map_values(|x: Vec<u32>| x@);
    let ghost head = out@;
    let mut i: usize = 0;
    while i < nj
        invariant
            i <= nj,
            nj <= names@.len(),
            nj <= mats@.len(),
            nv == names@.map_values(|x: String| x@),
            mv == mats@.map_values(|x: Vec<u32>| x@),
            forall|j: int| 0 <= j < mats@.len() ==> (#[trigger] mats@[j])@.len() == 16,
            out@ == head + joints_bytes(nv, mv, i as nat),
        decreases nj - i,
    {
        write_string(&mut out, names[i].as_str());
        push_words(&mut out, &mats[i], 16);
        assert(mats@[i as int]@.subrange(0, 16) =~= mv[i as int]);
        i += 1;
    }
    let ghost joints_end = out@;
    push_parents(&mut out, parents);
    push_u32_le(&mut out, count as u32);
    let mut body = body;
    let ghost bv = body@;
    out.append(&mut body);
    assert(out@ =~= head + joints_bytes(nv, mv, nj as nat) + parents_bytes(parents@) + u32_le(count as u32) + bv);
    out
}

} // verus!
