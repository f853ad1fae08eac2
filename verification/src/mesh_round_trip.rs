//! What the DLMS converter writes, the DLMS loader reads back: the joint
//! names, matrices and parents of the skeleton, and every submesh with the
//! values of each row that the format holds.

use vstd::prelude::*;
use vstd::utf8::encode_utf8;
use crate::dlms::{spec_load, spec_read_joints, spec_read_string, spec_read_submesh, spec_read_submeshes, rows_u16, rows_u32, words, DlmsFault, MeshModel};
use crate::glb::{encoded_string, lemma_string_round_trip};
use crate::gltf::{
    conversion_defined, convert_meshes, spec_convert, skin_matrices, skin_parents, skin_joint_names,
    pad16, identity_bits, AccessorRows, GltfDoc, dlms_bytes, dlms_magic, joint_rows_bytes, joints_bytes, parents_bytes, rows_bytes, shorts_bytes,
    submesh_bytes, submeshes_bytes, words_bytes, SubmeshModel, Skeleton,
};
use crate::le::{le_u16, le_u32, u16_le, u32_le, lemma_u32_le_roundtrip};

verus! {

/// Whether `d` holds the bytes `x` from position `p` on.
pub open spec fn holds_at(d: Seq<u8>, p: int, x: Seq<u8>) -> bool {
    0 <= p && p + x.len() <= d.len() && d.subrange(p, p + x.len()) == x
}

proof fn lemma_split(d: Seq<u8>, p: int, a: Seq<u8>, b: Seq<u8>)
    requires
        holds_at(d, p, a + b),
    ensures
        holds_at(d, p, a),
        holds_at(d, p + a.len(), b),
{
    assert(d.subrange(p, p + a.len()) =~= (a + b).subrange(0, a.len() as int));
    assert((a + b).subrange(0, a.len() as int) =~= a);
    assert(d.subrange(p + a.len(), p + a.len() + b.len()) =~= (a + b).subrange(a.len() as int, (a.len() + b.len()) as int));
    assert((a + b).subrange(a.len() as int, (a.len() + b.len()) as int) =~= b);
}

proof fn lemma_u32_at(d: Seq<u8>, p: int, x: u32)
    requires
        holds_at(d, p, u32_le(x)),
    ensures
        le_u32(d, p) == x,
{
    let b = u32_le(x);
    assert(d[p] == d.subrange(p, p + 4)[0]);
    assert(d[p + 1] == d.subrange(p, p + 4)[1]);
    assert(d[p + 2] == d.subrange(p, p + 4)[2]);
    assert(d[p + 3] == d.subrange(p, p + 4)[3]);
    lemma_u32_le_roundtrip(x);
}

proof fn lemma_u16_at(d: Seq<u8>, p: int, x: u16)
    requires
        holds_at(d, p, u16_le(x)),
    ensures
        le_u16(d, p) == x,
{
    assert(d[p] == d.subrange(p, p + 2)[0]);
    assert(d[p + 1] == d.subrange(p, p + 2)[1]);
}

proof fn lemma_words_len(ws: Seq<u32>)
    ensures
        words_bytes(ws).len() == 4 * ws.len(),
    decreases ws.len(),
{
    if ws.len() > 0 {
        lemma_words_len(ws.drop_last());
    }
}

proof fn lemma_words_at(d: Seq<u8>, p: int, ws: Seq<u32>)
    requires
        holds_at(d, p, words_bytes(ws)),
    ensures
        words(d, p, ws.len() as int) == ws,
    decreases ws.len(),
{
    if ws.len() > 0 {
        let n = ws.len() - 1;
        lemma_split(d, p, words_bytes(ws.drop_last()), u32_le(ws.last()));
        lemma_words_at(d, p, ws.drop_last());
        lemma_words_len(ws.drop_last());
        lemma_u32_at(d, p + 4 * n, ws.last());
        assert forall|k: int| 0 <= k < ws.len() implies words(d, p, ws.len() as int)[k] == ws[k] by {
            if k < n {
                assert(words(d, p, n as int)[k] == ws.drop_last()[k]);
            }
        }
        assert(words(d, p, ws.len() as int) =~= ws);
    } else {
        assert(words(d, p, 0) =~= ws);
    }
}

proof fn lemma_shorts_len(ws: Seq<u16>)
    ensures
        shorts_bytes(ws).len() == 2 * ws.len(),
    decreases ws.len(),
{
    if ws.len() > 0 {
        lemma_shorts_len(ws.drop_last());
    }
}

proof fn lemma_shorts_at(d: Seq<u8>, p: int, ws: Seq<u16>)
    requires
        holds_at(d, p, shorts_bytes(ws)),
    ensures
        forall|k: int| 0 <= k < ws.len() ==> le_u16(d, p + 2 * k) == #[trigger] ws[k],
    decreases ws.len(),
{
    if ws.len() > 0 {
        let n = ws.len() - 1;
        lemma_split(d, p, shorts_bytes(ws.drop_last()), u16_le(ws.last()));
        lemma_shorts_at(d, p, ws.drop_last());
        lemma_shorts_len(ws.drop_last());
        lemma_u16_at(d, p + 2 * n, ws.last());
        assert forall|k: int| 0 <= k < ws.len() implies le_u16(d, p + 2 * k) == #[trigger] ws[k] by {
            if k < n {
                assert(ws.drop_last()[k] == ws[k]);
            }
        }
    }
}

/// The first `w` values of each row.
pub open spec fn row_prefixes(rows: Seq<Seq<u32>>, w: int) -> Seq<Seq<u32>> {
    rows.map_values(|r: Seq<u32>| r.subrange(0, w))
}

/// The first four values of each joint row.
pub open spec fn joint_prefixes(rows: Seq<Seq<u16>>) -> Seq<Seq<u16>> {
    rows.map_values(|r: Seq<u16>| r.subrange(0, 4))
}

proof fn lemma_rows_len(rows: Seq<Seq<u32>>, w: int)
    requires
        0 <= w,
        forall|r: int| 0 <= r < rows.len() ==> (#[trigger] rows[r]).len() >= w,
    ensures
        rows_bytes(rows, w).len() == 4 * w * rows.len(),
    decreases rows.len(),
{
    if rows.len() > 0 {
        let n = rows.len() - 1;
        assert forall|r: int| 0 <= r < rows.drop_last().len() implies (#[trigger] rows.drop_last()[r]).len() >= w by {
            assert(rows.drop_last()[r] == rows[r]);
        }
        lemma_rows_len(rows.drop_last(), w);
        lemma_words_len(rows.last().subrange(0, w));
        assert(4 * w * n + 4 * w == 4 * w * (n + 1)) by (nonlinear_arith);
    }
}

proof fn lemma_rows_at(d: Seq<u8>, p: int, rows: Seq<Seq<u32>>, w: int)
    requires
        0 <= w,
        forall|r: int| 0 <= r < rows.len() ==> (#[trigger] rows[r]).len() >= w,
        holds_at(d, p, rows_bytes(rows, w)),
    ensures
        rows_u32(d, p, rows.len() as int, w) == row_prefixes(rows, w),
    decreases rows.len(),
{
    if rows.len() > 0 {
        let n = rows.len() - 1;
        let init = rows.drop_last();
        assert forall|r: int| 0 <= r < init.len() implies (#[trigger] init[r]).len() >= w by {
            assert(init[r] == rows[r]);
        }
        let last = rows.last().subrange(0, w);
        lemma_split(d, p, rows_bytes(init, w), words_bytes(last));
        lemma_rows_at(d, p, init, w);
        lemma_rows_len(init, w);
        let q = p + 4 * w * n;
        lemma_words_at(d, q, last);
        assert forall|r: int, c: int| 0 <= r < rows.len() && 0 <= c < w implies #[trigger] rows_u32(d, p, rows.len() as int, w)[r][c]
            == row_prefixes(rows, w)[r][c] by {
            if r < n {
                assert(rows_u32(d, p, n as int, w)[r][c] == row_prefixes(init, w)[r][c]);
                assert(init[r] == rows[r]);
            } else {
                assert(p + 4 * (w * r + c) == q + 4 * c) by (nonlinear_arith)
                    requires
                        r == n,
                        q == p + 4 * w * n,
                ;
                assert(words(d, q, w)[c] == last[c]);
            }
        }
        assert forall|r: int| 0 <= r < rows.len() implies #[trigger] rows_u32(d, p, rows.len() as int, w)[r]
            == row_prefixes(rows, w)[r] by {
            assert(rows_u32(d, p, rows.len() as int, w)[r] =~= row_prefixes(rows, w)[r]);
        }
        assert(rows_u32(d, p, rows.len() as int, w) =~= row_prefixes(rows, w));
    } else {
        assert(rows_u32(d, p, 0, w) =~= row_prefixes(rows, w));
    }
}

proof fn lemma_joint_rows_len(rows: Seq<Seq<u16>>)
    requires
        forall|r: int| 0 <= r < rows.len() ==> (#[trigger] rows[r]).len() >= 4,
    ensures
        joint_rows_bytes(rows).len() == 8 * rows.len(),
    decreases rows.len(),
{
    if rows.len() > 0 {
        assert forall|r: int| 0 <= r < rows.drop_last().len() implies (#[trigger] rows.drop_last()[r]).len() >= 4 by {
            assert(rows.drop_last()[r] == rows[r]);
        }
        lemma_joint_rows_len(rows.drop_last());
        lemma_shorts_len(rows.last().subrange(0, 4));
    }
}

proof fn lemma_joint_rows_at(d: Seq<u8>, p: int, rows: Seq<Seq<u16>>)
    requires
        forall|r: int| 0 <= r < rows.len() ==> (#[trigger] rows[r]).len() >= 4,
        holds_at(d, p, joint_rows_bytes(rows)),
    ensures
        rows_u16(d, p, rows.len() as int, 4) == joint_prefixes(rows),
    decreases rows.len(),
{
    if rows.len() > 0 {
        let n = rows.len() - 1;
        let init = rows.drop_last();
        assert forall|r: int| 0 <= r < init.len() implies (#[trigger] init[r]).len() >= 4 by {
            assert(init[r] == rows[r]);
        }
        let last = rows.last().subrange(0, 4);
        lemma_split(d, p, joint_rows_bytes(init), shorts_bytes(last));
        lemma_joint_rows_at(d, p, init);
        lemma_joint_rows_len(init);
        let q = p + 8 * n;
        lemma_shorts_at(d, q, last);
        assert forall|r: int, c: int| 0 <= r < rows.len() && 0 <= c < 4 implies #[trigger] rows_u16(d, p, rows.len() as int, 4)[r][c]
            == joint_prefixes(rows)[r][c] by {
            if r < n {
                assert(rows_u16(d, p, n as int, 4)[r][c] == joint_prefixes(init)[r][c]);
                assert(init[r] == rows[r]);
            } else {
                assert(le_u16(d, q + 2 * c) == last[c]);
            }
        }
        assert forall|r: int| 0 <= r < rows.len() implies #[trigger] rows_u16(d, p, rows.len() as int, 4)[r]
            == joint_prefixes(rows)[r] by {
            assert(rows_u16(d, p, rows.len() as int, 4)[r] =~= joint_prefixes(rows)[r]);
        }
        assert(rows_u16(d, p, rows.len() as int, 4) =~= joint_prefixes(rows));
    } else {
        assert(rows_u16(d, p, 0, 4) =~= joint_prefixes(rows));
    }
}

proof fn lemma_string_at(d: Seq<u8>, p: int, s: Seq<char>)
    requires
        encode_utf8(s).len() < 0x1_0000_0000,
        holds_at(d, p, encoded_string(s)),
    ensures
        encoded_string(s).len() == 4 + encode_utf8(s).len(),
        spec_read_string(d, p) == Ok::<(Seq<char>, int), DlmsFault>((s, p + 4 + encode_utf8(s).len())),
{
    let e = encoded_string(s);
    let prefix = d.subrange(0, p);
    let rest = d.subrange(p + e.len(), d.len() as int);
    assert(d =~= prefix + e + rest);
    lemma_string_round_trip(prefix, s, rest);
}

/// What the loader reads of a written submesh: its name, the values of each
/// row that the format holds (three for positions and normals, two for
/// texture coordinates, four for joints and weights), and its indices.
pub open spec fn loaded_submesh(s: SubmeshModel) -> crate::dlms::SubmeshModel {
    crate::dlms::SubmeshModel {
        name: s.name,
        positions: row_prefixes(s.positions, 3),
        normals: row_prefixes(s.normals, 3),
        uvs: row_prefixes(s.uvs, 2),
        joint_indices: joint_prefixes(s.joints),
        joint_weights: row_prefixes(s.weights, 4),
        indices: s.indices,
    }
}

/// Whether a submesh is written as the loader reads it: every row has the
/// values written of it, every attribute has one row per vertex, and the
/// name and the counts fit their 32-bit fields.
pub open spec fn submesh_fits(s: SubmeshModel) -> bool {
    &&& crate::gltf::submesh_writable(s)
    &&& encode_utf8(s.name).len() < 0x1_0000_0000
    &&& s.positions.len() < 0x1_0000_0000
    &&& s.indices.len() < 0x1_0000_0000
    &&& s.normals.len() == s.positions.len()
    &&& s.uvs.len() == s.positions.len()
    &&& s.joints.len() == s.positions.len()
    &&& s.weights.len() == s.positions.len()
}

proof fn lemma_submesh_at(d: Seq<u8>, p: int, s: SubmeshModel)
    requires
        submesh_fits(s),
        holds_at(d, p, submesh_bytes(s)),
    ensures
        spec_read_submesh(d, p) == Ok::<(crate::dlms::SubmeshModel, int), DlmsFault>(
            (loaded_submesh(s), p + submesh_bytes(s).len()),
        ),
{
    let v = s.positions.len();
    let n = s.indices.len();
    let e = encoded_string(s.name);
    let b1 = e + u32_le(v as u32);
    let b2 = b1 + u32_le(n as u32);
    let b3 = b2 + rows_bytes(s.positions, 3);
    let b4 = b3 + rows_bytes(s.normals, 3);
    let b5 = b4 + rows_bytes(s.uvs, 2);
    let b6 = b5 + joint_rows_bytes(s.joints);
    let b7 = b6 + rows_bytes(s.weights, 4);
    let b8 = b7 + words_bytes(s.indices);
    assert(submesh_bytes(s) == b8);
    lemma_split(d, p, b7, words_bytes(s.indices));
    lemma_split(d, p, b6, rows_bytes(s.weights, 4));
    lemma_split(d, p, b5, joint_rows_bytes(s.joints));
    lemma_split(d, p, b4, rows_bytes(s.uvs, 2));
    lemma_split(d, p, b3, rows_bytes(s.normals, 3));
    lemma_split(d, p, b2, rows_bytes(s.positions, 3));
    lemma_split(d, p, b1, u32_le(n as u32));
    lemma_split(d, p, e, u32_le(v as u32));
    lemma_string_at(d, p, s.name);
    let q = p + e.len();
    lemma_u32_at(d, q, v as u32);
    lemma_u32_at(d, q + 4, n as u32);
    lemma_rows_len(s.positions, 3);
    lemma_rows_len(s.normals, 3);
    lemma_rows_len(s.uvs, 2);
    lemma_joint_rows_len(s.joints);
    lemma_rows_len(s.weights, 4);
    lemma_words_len(s.indices);
    let r = q + 8;
    lemma_rows_at(d, r, s.positions, 3);
    lemma_rows_at(d, r + 12 * v, s.normals, 3);
    lemma_rows_at(d, r + 24 * v, s.uvs, 2);
    lemma_joint_rows_at(d, r + 32 * v, s.joints);
    lemma_rows_at(d, r + 40 * v, s.weights, 4);
    lemma_words_at(d, r + 56 * v, s.indices);
    assert(spec_read_submesh(d, p) == Ok::<(crate::dlms::SubmeshModel, int), DlmsFault>(
        (loaded_submesh(s), p + submesh_bytes(s).len()),
    ));
}

proof fn lemma_submeshes_at(d: Seq<u8>, p: int, subs: Seq<SubmeshModel>)
    requires
        forall|i: int| 0 <= i < subs.len() ==> submesh_fits(#[trigger] subs[i]),
        holds_at(d, p, submeshes_bytes(subs)),
    ensures
        spec_read_submeshes(d, p, subs.len()) == Ok::<(Seq<crate::dlms::SubmeshModel>, int), DlmsFault>(
            (subs.map_values(|s: SubmeshModel| loaded_submesh(s)), p + submeshes_bytes(subs).len()),
        ),
    decreases subs.len(),
{
    if subs.len() > 0 {
        let init = subs.drop_last();
        assert forall|i: int| 0 <= i < init.len() implies submesh_fits(#[trigger] init[i]) by {
            assert(init[i] == subs[i]);
        }
        assert(submesh_fits(subs[subs.len() - 1]));
        lemma_split(d, p, submeshes_bytes(init), submesh_bytes(subs.last()));
        lemma_submeshes_at(d, p, init);
        lemma_submesh_at(d, p + submeshes_bytes(init).len(), subs.last());
        assert(subs.map_values(|s: SubmeshModel| loaded_submesh(s)) =~= init.map_values(
            |s: SubmeshModel| loaded_submesh(s),
        ).push(loaded_submesh(subs.last())));
    } else {
        assert(subs.map_values(|s: SubmeshModel| loaded_submesh(s)) =~= Seq::empty());
    }
}

/// Whether the first `k` joints are written as the loader reads them: each
/// matrix has sixteen values and each name fits its length field.
pub open spec fn joints_fit(names: Seq<Seq<char>>, mats: Seq<Seq<u32>>, k: nat) -> bool {
    &&& k <= names.len()
    &&& k <= mats.len()
    &&& forall|j: int| 0 <= j < k ==> (#[trigger] mats[j]).len() == 16
    &&& forall|j: int| 0 <= j < k ==> encode_utf8(#[trigger] names[j]).len() < 0x1_0000_0000
}

proof fn lemma_joints_at(d: Seq<u8>, p: int, names: Seq<Seq<char>>, mats: Seq<Seq<u32>>, k: nat)
    requires
        joints_fit(names, mats, k),
        holds_at(d, p, joints_bytes(names, mats, k)),
    ensures
        spec_read_joints(d, p, k) == Ok::<(Seq<Seq<char>>, Seq<Seq<u32>>, int), DlmsFault>(
            (names.take(k as int), mats.take(k as int), p + joints_bytes(names, mats, k).len()),
        ),
    decreases k,
{
    if k > 0 {
        let j = k - 1;
        let prev = joints_bytes(names, mats, j as nat);
        let e = encoded_string(names[j]);
        lemma_split(d, p, prev + e, words_bytes(mats[j]));
        lemma_split(d, p, prev, e);
        lemma_joints_at(d, p, names, mats, j as nat);
        lemma_string_at(d, p + prev.len(), names[j]);
        lemma_words_len(mats[j]);
        lemma_words_at(d, p + prev.len() + e.len(), mats[j]);
        assert(names.take(k as int) =~= names.take(j).push(names[j]));
        assert(mats.take(k as int) =~= mats.take(j).push(mats[j]));
    } else {
        assert(names.take(0) =~= Seq::<Seq<char>>::empty());
        assert(mats.take(0) =~= Seq::<Seq<u32>>::empty());
    }
}

proof fn lemma_i32_bits(x: i32)
    ensures
        (x as u32) as i32 == x,
{
    assert((x as u32) as i32 == x) by (bit_vector);
}

proof fn lemma_parents_at(d: Seq<u8>, q: int, parents: Seq<i32>)
    requires
        holds_at(d, q, parents_bytes(parents)),
    ensures
        Seq::new(parents.len(), |k: int| le_u32(d, q + 4 * k) as i32) == parents,
        parents_bytes(parents).len() == 4 * parents.len(),
{
    let pw = parents.map_values(|x: i32| x as u32);
    lemma_words_at(d, q, pw);
    lemma_words_len(pw);
    assert forall|k: int| 0 <= k < parents.len() implies #[trigger] (le_u32(d, q + 4 * k) as i32) == parents[k] by {
        assert(words(d, q, parents.len() as int)[k] == pw[k]);
        lemma_i32_bits(parents[k]);
    }
    assert(Seq::new(parents.len(), |k: int| le_u32(d, q + 4 * k) as i32) =~= parents);
}

/// The mesh the loader reads of a written skeleton and its submeshes.
pub open spec fn loaded_mesh(skel: Skeleton, subs: Seq<SubmeshModel>) -> MeshModel {
    MeshModel {
        joint_names: skel.0,
        inverse_bind: skel.1.take(skel.0.len() as int),
        parent_indices: skel.2,
        submeshes: subs.map_values(|s: SubmeshModel| loaded_submesh(s)),
    }
}

/// Whether a skeleton and submeshes are written as the loader reads them:
/// a matrix of sixteen values and a parent for every joint, every submesh
/// fitting, and the counts and names fitting their 32-bit fields.
pub open spec fn dlms_fits(skel: Skeleton, subs: Seq<SubmeshModel>) -> bool {
    &&& skel.0.len() < 0x1_0000_0000
    &&& joints_fit(skel.0, skel.1, skel.0.len())
    &&& skel.2.len() == skel.0.len()
    &&& subs.len() < 0x1_0000_0000
    &&& forall|i: int| 0 <= i < subs.len() ==> submesh_fits(#[trigger] subs[i])
}

/// The DLMS bytes written for a skeleton and its submeshes load back as that
/// skeleton (names, matrices, parents) and those submeshes, each row with
/// the values the format holds. Where a matrix or a parent is missing for a
/// joint, an attribute has another number of rows than the positions, or a
/// count or a name does not fit 32 bits, the written counts do not describe
/// the bytes, and those inputs are left out.
#[verifier::rlimit(60)]
#[verifier::spinoff_prover]
pub proof fn lemma_dlms_round_trip(skel: Skeleton, subs: Seq<SubmeshModel>)
    requires
        dlms_fits(skel, subs),
    ensures
        spec_load(dlms_bytes(skel, subs)) == Ok::<MeshModel, DlmsFault>(loaded_mesh(skel, subs)),
{
    let (names, mats, parents) = skel;
    let nn = names.len();
    let ns = subs.len();
    let jb = joints_bytes(names, mats, nn);
    let pb = parents_bytes(parents);
    let sb = submeshes_bytes(subs);
    let h1 = dlms_magic() + u32_le(4);
    let h2 = h1 + u32_le(nn as u32);
    let h3 = h2 + jb;
    let h4 = h3 + pb;
    let h5 = h4 + u32_le(ns as u32);
    let d = h5 + sb;
    assert(dlms_bytes(skel, subs) == d);
    assert(holds_at(d, 0, d)) by {
        assert(d.subrange(0, d.len() as int) =~= d);
    }
    lemma_split(d, 0, h5, sb);
    lemma_split(d, 0, h4, u32_le(ns as u32));
    lemma_split(d, 0, h3, pb);
    lemma_split(d, 0, h2, jb);
    lemma_split(d, 0, h1, u32_le(nn as u32));
    lemma_split(d, 0, dlms_magic(), u32_le(4));
    assert(d.take(4) =~= dlms_magic()) by {
        assert(d.subrange(0, 4) =~= dlms_magic());
    }
    lemma_u32_at(d, 4, 4);
    lemma_u32_at(d, 8, nn as u32);
    lemma_joints_at(d, 12, names, mats, nn);
    assert(names.take(nn as int) =~= names);
    let q: int = 12 + jb.len() as int;
    lemma_parents_at(d, q, parents);
    let r: int = q + 4 * nn;
    lemma_u32_at(d, r, ns as u32);
    lemma_submeshes_at(d, r + 4, subs);
}

/// Whether every matrix of a skeleton has sixteen values and every joint a
/// parent entry.
pub open spec fn skeleton_shaped(s: Skeleton) -> bool {
    &&& forall|j: int| 0 <= j < s.1.len() ==> (#[trigger] s.1[j]).len() == 16
    &&& s.2.len() == s.0.len()
}

proof fn lemma_skeleton_shaped(doc: GltfDoc, acc: Seq<Option<AccessorRows>>, k: nat)
    requires
        doc.meshes is Some,
        doc.nodes is Some,
        doc.skins is Some,
        k <= doc.meshes.unwrap()@.len(),
    ensures
        convert_meshes(doc, acc, k) matches Ok((Some(s), _)) ==> skeleton_shaped(s),
    decreases k,
{
    if k > 0 {
        lemma_skeleton_shaped(doc, acc, (k - 1) as nat);
        if let Ok((None, _)) = convert_meshes(doc, acc, (k - 1) as nat) {
            let nodes = doc.nodes.unwrap()@;
            let m = doc.meshes.unwrap()@[k - 1];
            if let Some(si) = crate::gltf::skin_of_mesh(nodes, k - 1) {
                let skin = doc.skins.unwrap()@[si as int];
                let mats = skin_matrices(acc, skin);
                assert forall|j: int| 0 <= j < mats.len() implies (#[trigger] mats[j]).len() == 16 by {
                    match skin.inverse_bind_matrices {
                        Some(i) => {
                            assert(mats[j] == pad16(crate::gltf::float_rows(acc, i)[j]));
                        },
                        None => {
                            assert(mats[j] == identity_bits());
                        },
                    }
                }
                assert(skin_parents(nodes, skin).len() == skin_joint_names(nodes, skin).len());
            }
        }
    }
}

/// The skeleton and submeshes a conversion that succeeds writes.
pub open spec fn converted(doc: GltfDoc, acc: Seq<Option<AccessorRows>>) -> (Skeleton, Seq<SubmeshModel>) {
    let r = convert_meshes(doc, acc, doc.meshes.unwrap()@.len())->Ok_0;
    (r.0.unwrap(), r.1)
}

/// Whether what a conversion writes describes itself: every joint has an
/// inverse bind matrix, every attribute of a submesh has one row per
/// vertex, and every count and name fits its 32-bit field.
pub open spec fn conversion_fits(doc: GltfDoc, acc: Seq<Option<AccessorRows>>) -> bool {
    let (skel, subs) = converted(doc, acc);
    &&& skel.0.len() < 0x1_0000_0000
    &&& skel.1.len() >= skel.0.len()
    &&& forall|j: int| 0 <= j < skel.0.len() ==> encode_utf8(#[trigger] skel.0[j]).len() < 0x1_0000_0000
    &&& subs.len() < 0x1_0000_0000
    &&& forall|i: int| 0 <= i < subs.len() ==> {
        let s = #[trigger] subs[i];
        &&& encode_utf8(s.name).len() < 0x1_0000_0000
        &&& s.positions.len() < 0x1_0000_0000
        &&& s.indices.len() < 0x1_0000_0000
        &&& s.normals.len() == s.positions.len()
        &&& s.uvs.len() == s.positions.len()
        &&& s.joints.len() == s.positions.len()
        &&& s.weights.len() == s.positions.len()
    }
}

/// What the converter writes, the mesh loader reads back: when a
/// conversion succeeds, its bytes load as the converted skeleton (joint
/// names, inverse bind matrices, parent joints) and the converted
/// submeshes, each row with the values the format holds. Left out are the
/// conversions whose bytes do not describe themselves (see
/// `conversion_fits`): a skin with fewer inverse bind matrices than joints,
/// an attribute with another number of rows than the positions, or a count
/// or name beyond 32 bits.
pub proof fn lemma_converted_mesh_loads(doc: GltfDoc, acc: Seq<Option<AccessorRows>>)
    requires
        conversion_defined(doc, acc),
        spec_convert(doc, acc) is Ok,
        conversion_fits(doc, acc),
    ensures
        spec_convert(doc, acc) == Ok::<Seq<u8>, Seq<char>>(dlms_bytes(converted(doc, acc).0, converted(doc, acc).1)),
        spec_load(spec_convert(doc, acc)->Ok_0) == Ok::<MeshModel, DlmsFault>(
            loaded_mesh(converted(doc, acc).0, converted(doc, acc).1),
        ),
{
    let n = doc.meshes.unwrap()@.len();
    lemma_skeleton_shaped(doc, acc, n);
    let (skel, subs) = converted(doc, acc);
    assert forall|i: int| 0 <= i < subs.len() implies submesh_fits(#[trigger] subs[i]) by {
        assert(crate::gltf::submesh_writable(subs[i]));
    }
    assert(joints_fit(skel.0, skel.1, skel.0.len()));
    lemma_dlms_round_trip(skel, subs);
}

} // verus!
