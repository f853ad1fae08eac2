//! Map geometry: which map packages are parsed, their names, the build number
//! check that decides a reparse, and turning the faces of the physics
//! geometry into triangles.

use vstd::prelude::*;
use vstd::string::StringSliceAdditionalSpecFns;
use vstd::string::StringExecFns;
use vstd::utf8::{encode_utf8, is_char_boundary, is_continuation_byte, valid_utf8};
use crate::text::{
    lemma_ascii_prefix_boundary, lemma_encode_concat,
    bytes_contains, bytes_ends_with, bytes_starts_with, contains_bytes, has_prefix, has_suffix,
    occurs_at, parse_u64_in, spec_parse_u64, spec_trim, trim_bounds,
};

verus! {

broadcast use vstd::utf8::encode_utf8_valid_utf8;

/// Whether a file in the maps directory is a map package that is parsed: a
/// `.vpk` whose name starts with `ar_`, `cs_` or `de_` and does not contain
/// `_vanity`.
pub open spec fn is_map_package(name: Seq<u8>) -> bool {
    &&& !contains_bytes(name, "_vanity".spec_bytes())
    &&& (has_prefix(name, "ar_".spec_bytes()) || has_prefix(name, "cs_".spec_bytes()) || has_prefix(
        name,
        "de_".spec_bytes(),
    ))
    &&& has_suffix(name, ".vpk".spec_bytes())
}

pub fn is_map_vpk(file_name: &str) -> (r: bool)
    ensures
        r == is_map_package(file_name.spec_bytes()),
{
    let b = file_name.as_bytes();
    if bytes_contains(b, "_vanity".as_bytes()) {
        return false;
    }
    if !bytes_starts_with(b, "ar_".as_bytes()) && !bytes_starts_with(b, "cs_".as_bytes())
        && !bytes_starts_with(b, "de_".as_bytes()) {
        return false;
    }
    bytes_ends_with(b, ".vpk".as_bytes())
}

/// The bytes of `.vpk`.
pub open spec fn vpk_ext() -> Seq<u8> {
    seq![46u8, 118u8, 112u8, 107u8]
}

/// `b` with every `.vpk` removed, scanning from the left as `str::replace`
/// does.
pub open spec fn strip_vpk(b: Seq<u8>) -> Seq<u8>
    decreases b.len(),
{
    if b.len() == 0 {
        b
    } else if occurs_at(b, vpk_ext(), 0) {
        strip_vpk(b.subrange(4, b.len() as int))
    } else {
        seq![b[0]] + strip_vpk(b.drop_first())
    }
}

proof fn lemma_strip_vpk_first(b: Seq<u8>, p: int)
    requires
        0 <= p,
        occurs_at(b, vpk_ext(), p),
        forall|k: int| 0 <= k < p ==> !occurs_at(b, vpk_ext(), k),
    ensures
        strip_vpk(b) == b.subrange(0, p) + strip_vpk(b.subrange(p + 4, b.len() as int)),
    decreases p,
{
    if p == 0 {
        assert(b.subrange(0, 0) + strip_vpk(b.subrange(4, b.len() as int)) =~= strip_vpk(
            b.subrange(4, b.len() as int),
        ));
    } else {
        let t = b.drop_first();
        assert(!occurs_at(b, vpk_ext(), 0));
        assert(occurs_at(t, vpk_ext(), p - 1)) by {
            assert(t.subrange(p - 1, p + 3) =~= b.subrange(p, p + 4));
        }
        assert forall|k: int| 0 <= k < p - 1 implies !occurs_at(t, vpk_ext(), k) by {
            assert(!occurs_at(b, vpk_ext(), k + 1));
            if k + 4 <= t.len() {
                assert(t.subrange(k, k + 4) =~= b.subrange(k + 1, k + 5));
            }
        }
        lemma_strip_vpk_first(t, p - 1);
        assert(t.subrange(p + 3, t.len() as int) =~= b.subrange(p + 4, b.len() as int));
        assert(seq![b[0]] + t.subrange(0, p - 1) =~= b.subrange(0, p));
    }
}

proof fn lemma_strip_vpk_none(b: Seq<u8>)
    requires
        forall|k: int| 0 <= k ==> !occurs_at(b, vpk_ext(), k),
    ensures
        strip_vpk(b) == b,
    decreases b.len(),
{
    if b.len() > 0 {
        let t = b.drop_first();
        assert forall|k: int| 0 <= k implies !occurs_at(t, vpk_ext(), k) by {
            assert(!occurs_at(b, vpk_ext(), k + 1));
            if k + 4 <= t.len() {
                assert(t.subrange(k, k + 4) =~= b.subrange(k + 1, k + 5));
            }
        }
        lemma_strip_vpk_none(t);
        assert(seq![b[0]] + t =~= b);
    }
}

/// UTF-8 encoding distributes over concatenation.
proof fn lemma_vpk_bytes()
    ensures
        ".vpk".spec_bytes() == vpk_ext(),
{
    reveal_strlit(".vpk");
    let c = ".vpk"@;
    assert(vstd::utf8::is_ascii_chars(c));
    vstd::utf8::is_ascii_chars_encode_utf8(c);
    assert(".vpk".spec_bytes() =~= vpk_ext());
}

/// The first index at which `p` occurs in `s`.
fn first_occurrence(s: &[u8], p: &[u8]) -> (r: Option<usize>)
    ensures
        match r {
            Some(i) => occurs_at(s@, p@, i as int) && forall|k: int|
                0 <= k < i ==> !occurs_at(s@, p@, k),
            None => forall|k: int| 0 <= k ==> !occurs_at(s@, p@, k),
        },
{
    if p.len() > s.len() {
        return None;
    }
    let last = s.len() - p.len();
    let mut at: usize = 0;
    while at < last
        invariant
            last == s@.len() - p@.len(),
            at <= last,
            forall|k: int| 0 <= k < at ==> !occurs_at(s@, p@, k),
        decreases last - at,
    {
        if crate::text::bytes_occur_at(s, p, at) {
            return Some(at);
        }
        at = at + 1;
    }
    if crate::text::bytes_occur_at(s, p, last) {
        return Some(last);
    }
    None
}

/// The name of a map: its package file name with every `.vpk` removed.
pub fn map_name(file: &str) -> (r: String)
    ensures
        encode_utf8(r@) == strip_vpk(file.spec_bytes()),
{
    let mut out = String::new();
    let mut rest: &str = file;
    assert(encode_utf8(out@) =~= Seq::<u8>::empty());
    loop
        invariant
            encode_utf8(out@) + strip_vpk(rest.spec_bytes()) == strip_vpk(file.spec_bytes()),
        decreases rest.spec_bytes().len(),
    {
        let b = rest.as_bytes();
        match first_occurrence(b, ".vpk".as_bytes()) {
            None => {
                proof {
                    lemma_vpk_bytes();
                    lemma_strip_vpk_none(b@);
                    lemma_encode_concat(out@, rest@);
                }
                out.append(rest);
                return out;
            },
            Some(p) => {
                proof {
                    lemma_vpk_bytes();
                    lemma_strip_vpk_first(b@, p as int);
                    assert(b@[p as int] == 46u8);
                    vstd::utf8::is_char_boundary_iff_not_is_continuation_byte(b@, p as int);
                }
                let (head, tail) = rest.split_at(p);
                proof {
                    let tb = tail.spec_bytes();
                    assert(tb =~= b@.subrange(p as int, b@.len() as int));
                    assert forall|k: int| 0 <= k < 4 implies tb[k] < 0x80 by {
                        assert(tb[k] == b@[p + k]);
                        assert(b@.subrange(p as int, p + 4)[k] == vpk_ext()[k]);
                    }
                    lemma_ascii_prefix_boundary(tb, 4);
                    lemma_encode_concat(out@, head@);
                }
                out.append(head);
                let (_, after) = tail.split_at(4);
                proof {
                    assert(after.spec_bytes() =~= b@.subrange(p + 4, b@.len() as int));
                }
                rest = after;
            },
        }
    }
}

/// The build number in a build file: its trimmed text as a `u64`, or 0 when
/// that does not parse.
pub fn parse_build_number(text: &str) -> (r: u64)
    ensures
        r == match spec_parse_u64(spec_trim(text.spec_bytes())) {
            Some(v) => v,
            None => 0,
        },
{
    let b = text.as_bytes();
    let (lo, hi) = trim_bounds(b);
    match parse_u64_in(b, lo, hi) {
        Some(v) => v,
        None => 0,
    }
}

/// Whether the map geometry is parsed again: when asked to, or when the build
/// the maps were last parsed for differs from the installed one.
pub fn needs_reparse(force_reparse: bool, parsed_build: u64, cs2_build: u64) -> (r: bool)
    ensures
        r == (force_reparse || parsed_build != cs2_build),
{
    force_reparse || parsed_build != cs2_build
}

/// How many maps are parsed at once: half the processors, at least one.
pub fn batch_size(cpus: usize) -> (r: usize)
    ensures
        r == (if cpus / 2 >= 1 { cpus / 2 } else { 1 }),
        r >= 1,
{
    let half = cpus / 2;
    if half >= 1 {
        half
    } else {
        1
    }
}

/// Whether a map's geometry is extracted: when it is not there yet, or when
/// everything is parsed again.
pub fn extraction_due(geometry_exists: bool, force_reparse: bool) -> (r: bool)
    ensures
        r == (!geometry_exists || force_reparse),
{
    !geometry_exists || force_reparse
}

/// The file of a map's collision model inside its package:
/// `maps/{map}/world_physics.vmdl_c`.
pub fn world_physics_path(map_name: &str) -> (r: String)
    ensures
        r@ == "maps/"@ + map_name@ + "/world_physics.vmdl_c"@,
{
    String::from_str("maps/").concat(map_name).concat("/world_physics.vmdl_c")
}

/// The name of a map's cached collision tree: `{map}.bvh`.
pub fn bvh_file_name(map_name: &str) -> (r: String)
    ensures
        r@ == map_name@ + ".bvh"@,
{
    String::from_str(map_name).concat(".bvh")
}

/// Whether a map's cached collision tree is loaded instead of building it:
/// when the cache exists and no reparse is asked for.
pub fn use_cached_bvh(cache_exists: bool, force_reparse: bool) -> (r: bool)
    ensures
        r == (cache_exists && !force_reparse),
{
    cache_exists && !force_reparse
}

/// The kinds of geometry file extracted for a map.
#[derive(Debug, Clone, Copy, PartialEq, Eq, Structural)]
pub enum GeometryKind {
    /// Convex hulls, faces separated by `-1`.
    Hull,
    /// Triangle meshes, three indices a face.
    Phys,
}

/// The kind of a geometry file by its name: `world_physics_hull` makes a
/// hull, else `world_physics_phys` a mesh; other files are skipped.
pub open spec fn spec_geometry_kind(name: Seq<u8>) -> Option<GeometryKind> {
    if contains_bytes(name, "world_physics_hull".spec_bytes()) {
        Some(GeometryKind::Hull)
    } else if contains_bytes(name, "world_physics_phys".spec_bytes()) {
        Some(GeometryKind::Phys)
    } else {
        None
    }
}

pub fn geometry_kind(file_name: &str) -> (r: Option<GeometryKind>)
    ensures
        r == spec_geometry_kind(file_name.spec_bytes()),
{
    let b = file_name.as_bytes();
    if bytes_contains(b, "world_physics_hull".as_bytes()) {
        Some(GeometryKind::Hull)
    } else if bytes_contains(b, "world_physics_phys".as_bytes()) {
        Some(GeometryKind::Phys)
    } else {
        None
    }
}

/// A triangle, as three indices into the vertex list.
pub type Tri = (usize, usize, usize);

/// The faces of a hull: the runs of indices between `-1` separators, as
/// `slice::split` yields them.
pub open spec fn hull_faces(ix: Seq<i32>) -> Seq<Seq<i32>>
    decreases ix.len(),
{
    if ix.len() == 0 {
        seq![Seq::<i32>::empty()]
    } else {
        let rest = hull_faces(ix.drop_last());
        if ix.last() == -1 {
            rest.push(Seq::<i32>::empty())
        } else {
            rest.update(rest.len() - 1, rest.last().push(ix.last()))
        }
    }
}

/// The faces of a triangle list: consecutive triples, a shorter rest dropped,
/// as `slice::chunks_exact(3)` yields them.
pub open spec fn phys_faces(ix: Seq<i32>) -> Seq<Seq<i32>> {
    Seq::new(ix.len() / 3, |k: int| ix.subrange(3 * k, 3 * k + 3))
}

/// A face is drawn when it has at least three indices, each naming a vertex.
pub open spec fn face_usable(face: Seq<i32>, vertex_count: int) -> bool {
    face.len() >= 3 && forall|k: int| 0 <= k < face.len() ==> 0 <= #[trigger] face[k] < vertex_count
}

/// The triangles of a face: a fan around its first vertex, or none when the
/// face is not usable.
pub open spec fn face_tris(face: Seq<i32>, vertex_count: int) -> Seq<Tri> {
    if face_usable(face, vertex_count) {
        Seq::new(
            (face.len() - 2) as nat,
            |j: int| (face[0] as usize, face[j + 1] as usize, face[j + 2] as usize),
        )
    } else {
        seq![]
    }
}

/// The triangles of a list of faces, in order.
pub open spec fn faces_tris(faces: Seq<Seq<i32>>, vertex_count: int) -> Seq<Tri>
    decreases faces.len(),
{
    if faces.len() == 0 {
        seq![]
    } else {
        faces_tris(faces.drop_last(), vertex_count) + face_tris(faces.last(), vertex_count)
    }
}

/// The triangles of the geometry: hull faces separated by `-1`, or index
/// triples of a triangle list.
pub open spec fn geometry_tris(ix: Seq<i32>, hull: bool, vertex_count: int) -> Seq<Tri> {
    if hull {
        faces_tris(hull_faces(ix), vertex_count)
    } else {
        faces_tris(phys_faces(ix), vertex_count)
    }
}

/// Appends the triangles of the face `ix[lo..hi]` to `out`.
fn push_face(out: &mut Vec<Tri>, ix: &[i32], lo: usize, hi: usize, vertex_count: usize)
    requires
        lo <= hi <= ix@.len(),
        vertex_count <= isize::MAX,
    ensures
        final(out)@ == old(out)@ + face_tris(ix@.subrange(lo as int, hi as int), vertex_count as int),
{
    let ghost face = ix@.subrange(lo as int, hi as int);
    if hi - lo < 3 {
        assert(face_tris(face, vertex_count as int) =~= Seq::<Tri>::empty());
        assert(out@ =~= old(out)@ + face_tris(face, vertex_count as int));
        return;
    }
    let mut k: usize = lo;
    while k < hi
        invariant
            lo <= k <= hi <= ix@.len(),
            vertex_count <= isize::MAX,
            face == ix@.subrange(lo as int, hi as int),
            forall|j: int| lo <= j < k ==> 0 <= #[trigger] ix@[j] < vertex_count,
        decreases hi - k,
    {
        let v = ix[k];
        if v < 0 || v as usize >= vertex_count {
            proof {
                assert(face[k - lo] == v);
            }
            assert(!face_usable(face, vertex_count as int));
            assert(out@ =~= old(out)@ + face_tris(face, vertex_count as int));
            return;
        }
        k += 1;
    }
    assert(face_usable(face, vertex_count as int)) by {
        assert forall|j: int| 0 <= j < face.len() implies 0 <= #[trigger] face[j] < vertex_count by {
            assert(face[j] == ix@[lo + j]);
        }
    }
    let first = ix[lo] as usize;
    let ghost start = out@;
    let mut i: usize = lo + 1;
    while i + 1 < hi
        invariant
            lo + 1 <= i <= hi - 1,
            hi <= ix@.len(),
            hi - lo >= 3,
            face == ix@.subrange(lo as int, hi as int),
            face_usable(face, vertex_count as int),
            first == face[0] as usize,
            out@ == start + face_tris(face, vertex_count as int).subrange(0, i - lo - 1),
        decreases hi - i,
    {
        assert(face[i - lo] == ix@[i as int] && face[i + 1 - lo] == ix@[i + 1]);
        assert(0 <= face[i - lo] < vertex_count && 0 <= face[i + 1 - lo] < vertex_count);
        out.push((first, ix[i] as usize, ix[i + 1] as usize));
        assert(face_tris(face, vertex_count as int).subrange(0, i + 1 - lo - 1) =~= face_tris(
            face,
            vertex_count as int,
        ).subrange(0, i - lo - 1).push((first, ix@[i as int] as usize, ix@[i + 1] as usize)));
        i += 1;
    }
    assert(face_tris(face, vertex_count as int).subrange(0, i - lo - 1) =~= face_tris(
        face,
        vertex_count as int,
    ));
}

/// The triangles of a face list read from the physics geometry. Hull
/// geometry separates faces by `-1`; otherwise every three indices form a
/// face. A face is drawn as a fan around its first vertex, and skipped when it
/// has fewer than three indices or one that names no vertex.
pub fn face_triangles(ix: &[i32], hull: bool, vertex_count: usize) -> (r: Vec<Tri>)
    requires
        vertex_count <= isize::MAX,
    ensures
        r@ == geometry_tris(ix@, hull, vertex_count as int),
{
    let mut out: Vec<Tri> = Vec::new();
    if hull {
        let mut start: usize = 0;
        let mut k: usize = 0;
        assert(hull_faces(ix@.subrange(0, 0)) =~= seq![Seq::<i32>::empty()]);
        while k < ix.len()
            invariant
                start <= k <= ix@.len(),
                vertex_count <= isize::MAX,
                hull_faces(ix@.subrange(0, k as int)).last() == ix@.subrange(start as int, k as int),
                hull_faces(ix@.subrange(0, k as int)).len() >= 1,
                out@ == faces_tris(hull_faces(ix@.subrange(0, k as int)).drop_last(), vertex_count as int),
            decreases ix@.len() - k,
        {
            let ghost prev = hull_faces(ix@.subrange(0, k as int));
            assert(ix@.subrange(0, k + 1).drop_last() =~= ix@.subrange(0, k as int));
            if ix[k] == -1 {
                push_face(&mut out, ix, start, k, vertex_count);
                assert(hull_faces(ix@.subrange(0, k + 1)).drop_last() =~= prev);
                start = k + 1;
            } else {
                let ghost next = hull_faces(ix@.subrange(0, k + 1));
                assert(next.drop_last() =~= prev.drop_last());
                assert(next.last() =~= ix@.subrange(start as int, k + 1));
            }
            k += 1;
        }
        push_face(&mut out, ix, start, ix.len(), vertex_count);
        proof {
            let faces = hull_faces(ix@.subrange(0, ix@.len() as int));
            assert(ix@.subrange(0, ix@.len() as int) =~= ix@);
            assert(faces.drop_last().push(faces.last()) =~= faces);
        }
    } else {
        let n = ix.len() / 3;
        let mut c: usize = 0;
        while c < n
            invariant
                n == ix@.len() / 3,
                n == ix.len() / 3,
                ix@.len() == ix.len(),
                c <= n,
                vertex_count <= isize::MAX,
                out@ == faces_tris(phys_faces(ix@).subrange(0, c as int), vertex_count as int),
            decreases n - c,
        {
            assert(3 * c + 3 <= ix.len()) by (nonlinear_arith)
                requires
                    c < n,
                    n == ix.len() / 3,
            ;
            push_face(&mut out, ix, 3 * c, 3 * c + 3, vertex_count);
            assert(phys_faces(ix@).subrange(0, c + 1).drop_last() =~= phys_faces(ix@).subrange(0, c as int));
            c += 1;
        }
        assert(phys_faces(ix@).subrange(0, n as int) =~= phys_faces(ix@));
    }
    out
}

/// The bytes of `_vanity`.
pub open spec fn vanity_bytes() -> Seq<u8> {
    seq![95u8, 118u8, 97u8, 110u8, 105u8, 116u8, 121u8]
}

/// Whether the bytes of `_vanity` appear nowhere in a name.
pub open spec fn free_of_vanity(name: Seq<u8>) -> bool {
    forall|at: int| 0 <= at && at + 7 <= name.len() ==> #[trigger] name.subrange(at, at + 7) != vanity_bytes()
}

proof fn lemma_map_literals()
    ensures
        "ar_".spec_bytes() == seq![97u8, 114u8, 95u8],
        "cs_".spec_bytes() == seq![99u8, 115u8, 95u8],
        "de_".spec_bytes() == seq![100u8, 101u8, 95u8],
        ".vpk".spec_bytes() == seq![46u8, 118u8, 112u8, 107u8],
        "_vanity".spec_bytes() == vanity_bytes(),
{
    reveal_strlit("ar_");
    reveal_strlit("cs_");
    reveal_strlit("de_");
    reveal_strlit(".vpk");
    reveal_strlit("_vanity");
    vstd::utf8::is_ascii_chars_encode_utf8("ar_"@);
    vstd::utf8::is_ascii_chars_encode_utf8("cs_"@);
    vstd::utf8::is_ascii_chars_encode_utf8("de_"@);
    vstd::utf8::is_ascii_chars_encode_utf8(".vpk"@);
    vstd::utf8::is_ascii_chars_encode_utf8("_vanity"@);
    assert("ar_".spec_bytes() =~= seq![97u8, 114u8, 95u8]);
    assert("cs_".spec_bytes() =~= seq![99u8, 115u8, 95u8]);
    assert("de_".spec_bytes() =~= seq![100u8, 101u8, 95u8]);
    assert(".vpk".spec_bytes() =~= seq![46u8, 118u8, 112u8, 107u8]);
    assert("_vanity".spec_bytes() =~= vanity_bytes());
}

/// The map packages parsed are exactly the `.vpk` files whose name starts
/// with `ar_`, `cs_` or `de_` and holds no `_vanity`: every such name `p m
/// .vpk` is one, a name with another first three bytes is not, and neither
/// is a name holding `_vanity`.
pub proof fn lemma_map_package_names(m: Seq<u8>, name: Seq<u8>)
    ensures
        ({
            let n = seq![97u8, 114u8, 95u8] + m + seq![46u8, 118u8, 112u8, 107u8];
            free_of_vanity(n) ==> is_map_package(n)
        }),
        ({
            let n = seq![99u8, 115u8, 95u8] + m + seq![46u8, 118u8, 112u8, 107u8];
            free_of_vanity(n) ==> is_map_package(n)
        }),
        ({
            let n = seq![100u8, 101u8, 95u8] + m + seq![46u8, 118u8, 112u8, 107u8];
            free_of_vanity(n) ==> is_map_package(n)
        }),
        name.len() >= 3 && name.take(3) != seq![97u8, 114u8, 95u8] && name.take(3) != seq![99u8, 115u8, 95u8]
            && name.take(3) != seq![100u8, 101u8, 95u8] ==> !is_map_package(name),
        !free_of_vanity(name) ==> !is_map_package(name),
{
    lemma_map_literals();
    let vpk = seq![46u8, 118u8, 112u8, 107u8];
    let ps = seq![seq![97u8, 114u8, 95u8], seq![99u8, 115u8, 95u8], seq![100u8, 101u8, 95u8]];
    assert forall|k: int| 0 <= k < 3 implies ({
        let n = #[trigger] ps[k] + m + vpk;
        free_of_vanity(n) ==> is_map_package(n)
    }) by {
        let p = ps[k];
        let n = p + m + vpk;
        if free_of_vanity(n) {
            assert(n.subrange(0, 3) =~= p);
            assert(n.subrange(n.len() - 4, n.len() as int) =~= vpk);
            assert(!contains_bytes(n, vanity_bytes())) by {
                if contains_bytes(n, vanity_bytes()) {
                    let at = choose|at: int| occurs_at(n, vanity_bytes(), at);
                    assert(n.subrange(at, at + 7) == vanity_bytes());
                }
            }
        }
    }
    assert(ps[0] == seq![97u8, 114u8, 95u8]);
    assert(ps[1] == seq![99u8, 115u8, 95u8]);
    assert(ps[2] == seq![100u8, 101u8, 95u8]);
    if name.len() >= 3 && is_map_package(name) {
        assert(name.subrange(0, 3) == name.take(3));
    }
    if !free_of_vanity(name) {
        let at = choose|at: int| 0 <= at && at + 7 <= name.len() && #[trigger] name.subrange(at, at + 7) == vanity_bytes();
        assert(occurs_at(name, vanity_bytes(), at));
    }
}

} // verus!
