//! Reading the game's physics world: which bodies and vectors are trusted,
//! and the walk over a body's bounding volume tree that finds the collision
//! shapes at its leaves.

use std::collections::HashSet;
use vstd::prelude::*;
use crate::maps::Tri;

verus! {

/// Largest element count of a game vector that is read.
pub const MAX_VECTOR_ITEMS: usize = 2000000;

/// Whether a game vector with this count and data pointer is read: a count
/// from 0 to `MAX_VECTOR_ITEMS`, and a data pointer unless it is empty.
pub fn valid_vector(count: i32, data: usize) -> (r: bool)
    ensures
        r == (0 <= count <= MAX_VECTOR_ITEMS && (count == 0 || data != 0)),
{
    count >= 0 && count as usize <= MAX_VECTOR_ITEMS && (count == 0 || data != 0)
}

/// Whether the body list of the physics world is read: from 1 to
/// `MAX_VECTOR_ITEMS` bodies.
pub fn valid_body_count(body_count: i32) -> (r: bool)
    ensures
        r == (0 < body_count <= MAX_VECTOR_ITEMS),
{
    body_count > 0 && body_count as usize <= MAX_VECTOR_ITEMS
}

/// Whether a physics body's tree is walked: a body of type 2 with a node
/// pointer, matching node counts from 1 to `MAX_VECTOR_ITEMS`, and a root
/// inside the node list.
pub fn usable_body(body_type: u32, root: i32, count_a: i32, count_b: i32, nodes_ptr: usize) -> (r:
    bool)
    ensures
        r == (body_type == 2 && nodes_ptr != 0 && 0 < count_a <= MAX_VECTOR_ITEMS && count_a
            == count_b && 0 <= root < count_a),
{
    if body_type != 2 {
        return false;
    }
    !(nodes_ptr == 0 || count_a <= 0 || count_a != count_b || count_a as usize > MAX_VECTOR_ITEMS
        || root < 0 || root >= count_a)
}

/// The kind of a collision shape, known from its type name.
#[derive(Debug, Clone, Copy, PartialEq, Eq, Structural)]
pub enum ShapeKind {
    Mesh,
    Hull,
}

/// The kind of collision shape a type name names; other shapes are ignored.
pub fn shape_kind(name: &str) -> (r: Option<ShapeKind>)
    ensures
        r == (if name@ == "12CRnMeshShape"@ {
            Some(ShapeKind::Mesh)
        } else if name@ == "12CRnHullShape"@ {
            Some(ShapeKind::Hull)
        } else {
            None
        }),
{
    if crate::text::str_eq(name, "12CRnMeshShape") {
        Some(ShapeKind::Mesh)
    } else if crate::text::str_eq(name, "12CRnHullShape") {
        Some(ShapeKind::Hull)
    } else {
        None
    }
}

/// Whether a shape takes part in collisions: the lowest bit of its flags.
pub fn shape_enabled(flags: u64) -> (r: bool)
    ensures
        r == (flags % 2 == 1),
{
    let r = flags & 1 != 0;
    assert((flags & 1 != 0) == (flags % 2 == 1)) by (bit_vector);
    r
}

/// A node of a body's bounding volume tree: a leaf when both children are
/// `-1`, in which case `shape` is the address of its collision shape.
#[derive(Debug, Clone, Copy, PartialEq, Eq, Structural)]
pub struct BvhNode {
    pub left: i32,
    pub right: i32,
    pub shape: usize,
}

/// Number of unvisited nodes.
pub open spec fn unvisited(v: Seq<bool>) -> nat
    decreases v.len(),
{
    if v.len() == 0 {
        0
    } else {
        unvisited(v.drop_last()) + if v.last() {
            0nat
        } else {
            1nat
        }
    }
}

/// Marking an unvisited node leaves one fewer unvisited.
pub proof fn lemma_unvisited_mark(v: Seq<bool>, i: int)
    requires
        0 <= i < v.len(),
        !v[i],
    ensures
        unvisited(v.update(i, true)) + 1 == unvisited(v),
    decreases v.len(),
{
    if i == v.len() - 1 {
        assert(v.update(i, true).drop_last() =~= v.drop_last());
    } else {
        lemma_unvisited_mark(v.drop_last(), i);
        assert(v.update(i, true).drop_last() =~= v.drop_last().update(i, true));
    }
}

/// The children of a node that are pushed on the walk's stack: the left one,
/// then the right one, each when it is not negative.
pub open spec fn children(node: BvhNode) -> Seq<i32> {
    (if node.left >= 0 { seq![node.left] } else { seq![] }) + (if node.right >= 0 {
        seq![node.right]
    } else {
        seq![]
    })
}

/// The shapes found by a depth-first walk of the tree that continues from the
/// given stack, visited marks and already seen shapes: the walk takes the node
/// on top of the stack, skips it when it is out of range or visited, reports a
/// leaf's shape when it is not null and not seen yet, and pushes an inner
/// node's children.
pub open spec fn walk(nodes: Seq<BvhNode>, stack: Seq<i32>, visited: Seq<bool>, seen: Set<usize>) -> Seq<
    usize,
>
    decreases unvisited(visited), stack.len(),
{
    if stack.len() == 0 || visited.len() != nodes.len() {
        seq![]
    } else {
        let index = stack.last();
        let rest = stack.drop_last();
        if index < 0 || index >= nodes.len() || visited[index as int] {
            walk(nodes, rest, visited, seen)
        } else {
            let marked = visited.update(index as int, true);
            proof {
                lemma_unvisited_mark(visited, index as int);
            }
            let node = nodes[index as int];
            if node.left == -1 && node.right == -1 {
                if node.shape != 0 && !seen.contains(node.shape) {
                    seq![node.shape] + walk(nodes, rest, marked, seen.insert(node.shape))
                } else {
                    walk(nodes, rest, marked, seen)
                }
            } else {
                walk(nodes, rest + children(node), marked, seen)
            }
        }
    }
}


/// Whether a node is a leaf: both children are `-1`.
pub open spec fn is_leaf(node: BvhNode) -> bool {
    node.left == -1 && node.right == -1
}

/// One step of the walk: from an inner node in the list to one of its
/// children.
pub open spec fn tree_step(nodes: Seq<BvhNode>, a: int, b: int) -> bool {
    0 <= a < nodes.len() && !is_leaf(nodes[a]) && children(nodes[a]).contains(b as i32) && b == (b as i32) as int
}

/// A path of steps.
pub open spec fn tree_path(nodes: Seq<BvhNode>, p: Seq<int>) -> bool {
    p.len() >= 1 && forall|t: int| 0 <= t < p.len() - 1 ==> #[trigger] tree_step(nodes, p[t], p[t + 1])
}

/// Whether node `i` can be reached from `root` through the tree.
pub open spec fn tree_reachable(nodes: Seq<BvhNode>, root: int, i: int) -> bool {
    exists|p: Seq<int>| #[trigger] tree_path(nodes, p) && p[0] == root && p.last() == i
}

/// When every child of a visited inner node is visited and the root is
/// visited, every node reachable from the root is visited.
proof fn lemma_closed_covers_reachable(nodes: Seq<BvhNode>, visited: Seq<bool>, root: int, p: Seq<int>)
    requires
        visited.len() == nodes.len(),
        0 <= root < nodes.len() ==> visited[root],
        forall|a: int, b: int|
            0 <= a < nodes.len() && visited[a] && 0 <= b < nodes.len() && #[trigger] tree_step(nodes, a, b)
                ==> visited[b],
        tree_path(nodes, p),
        p[0] == root,
    ensures
        forall|t: int| 0 <= t < p.len() && 0 <= #[trigger] p[t] < nodes.len() ==> visited[p[t]],
    decreases p.len(),
{
    if p.len() > 1 {
        let q = p.drop_last();
        assert forall|t: int| 0 <= t < q.len() - 1 implies #[trigger] tree_step(nodes, q[t], q[t + 1]) by {
            assert(tree_step(nodes, p[t], p[t + 1]));
        }
        lemma_closed_covers_reachable(nodes, visited, root, q);
        assert forall|t: int| 0 <= t < p.len() && 0 <= #[trigger] p[t] < nodes.len() implies visited[p[t]] by {
            if t < p.len() - 1 {
                assert(p[t] == q[t]);
            } else {
                let u = t - 1;
                assert(tree_step(nodes, p[u], p[u + 1]));
                assert(q[u] == p[u]);
                assert(0 <= q[u] < nodes.len());
                assert(visited[q[u]]);
            }
        }
    }
}

/// The collision shapes at the leaves of a body's tree that were not seen
/// before, in the order a depth-first walk from the root finds them; they are
/// added to the seen shapes.
pub fn leaf_shapes(nodes: &Vec<BvhNode>, root: i32, seen: &mut HashSet<usize>) -> (r: Vec<usize>)
    ensures
        r@ == walk(nodes@, seq![root], Seq::new(nodes@.len(), |i: int| false), old(seen)@),
        final(seen)@ == old(seen)@.union(r@.to_set()),
        forall|i: int|
            0 <= i < nodes@.len() && tree_reachable(nodes@, root as int, i) && is_leaf(nodes@[i])
                && nodes@[i].shape != 0 ==> #[trigger] final(seen)@.contains(nodes@[i].shape),
        forall|x: usize|
            #[trigger] r@.contains(x) ==> !old(seen)@.contains(x) && exists|i: int|
                0 <= i < nodes@.len() && tree_reachable(nodes@, root as int, i) && is_leaf(nodes@[i])
                    && nodes@[i].shape == x,
        r@.no_duplicates(),
{
    let ghost seen0 = seen@;
    let ghost start_visited = Seq::new(nodes@.len(), |i: int| false);
    let mut stack: Vec<i32> = Vec::new();
    stack.push(root);
    let mut visited: Vec<bool> = Vec::new();
    let mut k: usize = 0;
    while k < nodes.len()
        invariant
            k <= nodes@.len(),
            visited@ =~= Seq::new(k as nat, |i: int| false),
        decreases nodes@.len() - k,
    {
        visited.push(false);
        k += 1;
    }
    let mut out: Vec<usize> = Vec::new();
    assert(out@.to_set() =~= Set::<usize>::empty());
    assert(seen0.union(Set::<usize>::empty()) =~= seen0);
    proof {
        let p0 = seq![root as int];
        assert(tree_path(nodes@, p0));
        assert(stack@[0] == root);
        assert(stack@.contains(root));
    }
    while stack.len() > 0
        invariant
            visited@.len() == nodes@.len(),
            out@ + walk(nodes@, stack@, visited@, seen@) == walk(
                nodes@,
                seq![root],
                start_visited,
                seen0,
            ),
            seen@ == seen0.union(out@.to_set()),
            forall|q: int| 0 <= q < stack@.len() ==> tree_reachable(nodes@, root as int, #[trigger] stack@[q] as int),
            forall|i: int| 0 <= i < nodes@.len() && #[trigger] visited@[i] ==> tree_reachable(nodes@, root as int, i),
            0 <= root < nodes@.len() ==> visited@[root as int] || stack@.contains(root),
            forall|a: int, b: int|
                0 <= a < nodes@.len() && visited@[a] && 0 <= b < nodes@.len() && #[trigger] tree_step(nodes@, a, b)
                    ==> visited@[b] || stack@.contains(b as i32),
            forall|i: int|
                0 <= i < nodes@.len() && #[trigger] visited@[i] && is_leaf(nodes@[i]) && nodes@[i].shape != 0
                    ==> seen@.contains(nodes@[i].shape),
            forall|x: usize|
                #[trigger] out@.contains(x) ==> !seen0.contains(x) && exists|i: int|
                    0 <= i < nodes@.len() && tree_reachable(nodes@, root as int, i) && is_leaf(nodes@[i])
                        && nodes@[i].shape == x,
            out@.no_duplicates(),
        decreases unvisited(visited@), stack@.len(),
    {
        let ghost pre_out = out@;
        let ghost pre_stack = stack@;
        let ghost pre_visited = visited@;
        let ghost pre_seen = seen@;
        let index = stack.pop().unwrap();
        assert(stack@ == pre_stack.drop_last());
        assert(index == pre_stack.last());
        assert(tree_reachable(nodes@, root as int, index as int)) by {
            assert(pre_stack[pre_stack.len() - 1] == index);
        }
        if index < 0 || index as usize >= nodes.len() || visited[index as usize] {
            proof {
                assert forall|q: int| 0 <= q < stack@.len() implies tree_reachable(nodes@, root as int, #[trigger] stack@[q] as int) by {
                    assert(stack@[q] == pre_stack[q]);
                }
                assert forall|y: i32| pre_stack.contains(y) && y != index implies stack@.contains(y) by {
                    let q = choose|q: int| 0 <= q < pre_stack.len() && pre_stack[q] == y;
                    assert(q != pre_stack.len() - 1);
                    assert(stack@[q] == y);
                }
                assert forall|a: int, b: int|
                    0 <= a < nodes@.len() && visited@[a] && 0 <= b < nodes@.len() && #[trigger] tree_step(nodes@, a, b)
                        implies visited@[b] || stack@.contains(b as i32) by {
                    if !visited@[b] && (b as i32) == index {
                        assert(0 <= index < nodes@.len());
                    }
                }
                if 0 <= root < nodes@.len() && !visited@[root as int] {
                    assert(root != index);
                    assert(stack@.contains(root));
                }
            }
            continue;
        }
        let idx = index as usize;
        proof {
            lemma_unvisited_mark(visited@, idx as int);
        }
        visited.set(idx, true);
        let node = nodes[idx];
        proof {
            assert forall|q: int| 0 <= q < stack@.len() implies tree_reachable(nodes@, root as int, #[trigger] stack@[q] as int) by {
                assert(stack@[q] == pre_stack[q]);
            }
            assert forall|y: i32| pre_stack.contains(y) && y != index implies stack@.contains(y) by {
                let q = choose|q: int| 0 <= q < pre_stack.len() && pre_stack[q] == y;
                assert(q != pre_stack.len() - 1);
                assert(stack@[q] == y);
            }
        }
        if node.left == -1 && node.right == -1 {
            if node.shape != 0 && seen.insert(node.shape) {
                out.push(node.shape);
                proof {
                    pre_out.lemma_push_to_set_commute(node.shape);
                    assert(out@ =~= pre_out.push(node.shape));
                    assert(out@ + walk(nodes@, stack@, visited@, seen@) =~= pre_out + (seq![node.shape]
                        + walk(nodes@, stack@, visited@, seen@)));
                    assert(out@.to_set() =~= pre_out.to_set().insert(node.shape));
                    assert(seen@ =~= seen0.union(out@.to_set()));
                    assert(!pre_out.contains(node.shape)) by {
                        if pre_out.contains(node.shape) {
                            assert(pre_out.to_set().contains(node.shape));
                        }
                    }
                    assert forall|x: usize| #[trigger] out@.contains(x) implies !seen0.contains(x) && exists|i: int|
                        0 <= i < nodes@.len() && tree_reachable(nodes@, root as int, i) && is_leaf(nodes@[i])
                            && nodes@[i].shape == x by {
                        if x == node.shape {
                            assert(nodes@[idx as int] == node);
                            assert(!pre_seen.contains(x));
                            assert(0 <= idx < nodes@.len() && tree_reachable(nodes@, root as int, idx as int)
                                && is_leaf(nodes@[idx as int]) && nodes@[idx as int].shape == x);
                        } else {
                            let q = choose|q: int| 0 <= q < out@.len() && out@[q] == x;
                            assert(q < pre_out.len());
                            assert(pre_out[q] == x);
                            assert(pre_out.contains(x));
                        }
                    }
                }
            } else {
                assert(seen@ =~= pre_seen);
            }
            proof {
                assert forall|a: int, b: int|
                    0 <= a < nodes@.len() && visited@[a] && 0 <= b < nodes@.len() && #[trigger] tree_step(nodes@, a, b)
                        implies visited@[b] || stack@.contains(b as i32) by {
                    if a != idx {
                        assert(pre_visited[a]);
                        if !pre_visited[b] && (b as i32) != index {
                            assert(pre_stack.contains(b as i32));
                        }
                    }
                }
                if 0 <= root < nodes@.len() && !visited@[root as int] {
                    assert(root != index);
                }
                assert forall|i: int|
                    0 <= i < nodes@.len() && #[trigger] visited@[i] && is_leaf(nodes@[i]) && nodes@[i].shape != 0
                        implies seen@.contains(nodes@[i].shape) by {
                    if i != idx {
                        assert(pre_visited[i]);
                    }
                }
            }
            continue;
        }
        if node.left >= 0 {
            stack.push(node.left);
        }
        if node.right >= 0 {
            stack.push(node.right);
        }
        assert(stack@ =~= pre_stack.drop_last() + children(node));
        proof {
            let pi = choose|p: Seq<int>| #[trigger] tree_path(nodes@, p) && p[0] == root as int && p.last() == idx as int;
            assert forall|q: int| 0 <= q < stack@.len() implies tree_reachable(nodes@, root as int, #[trigger] stack@[q] as int) by {
                if q < pre_stack.len() - 1 {
                    assert(stack@[q] == pre_stack[q]);
                } else {
                    let c = stack@[q];
                    assert(children(node).contains(c));
                    assert(tree_step(nodes@, idx as int, c as int));
                    let p2 = pi.push(c as int);
                    assert forall|t: int| 0 <= t < p2.len() - 1 implies #[trigger] tree_step(nodes@, p2[t], p2[t + 1]) by {
                        if t < pi.len() - 1 {
                            assert(tree_step(nodes@, pi[t], pi[t + 1]));
                        }
                    }
                    assert(tree_path(nodes@, p2));
                }
            }
            assert forall|y: i32| children(node).contains(y) implies stack@.contains(y) by {
                let q = choose|q: int| 0 <= q < children(node).len() && children(node)[q] == y;
                assert(stack@[pre_stack.len() - 1 + q] == y);
            }
            assert forall|y: i32| pre_stack.contains(y) && y != index implies stack@.contains(y) by {
                let q = choose|q: int| 0 <= q < pre_stack.len() && pre_stack[q] == y;
                assert(q != pre_stack.len() - 1);
                assert(stack@[q] == y);
            }
            assert forall|a: int, b: int|
                0 <= a < nodes@.len() && visited@[a] && 0 <= b < nodes@.len() && #[trigger] tree_step(nodes@, a, b)
                    implies visited@[b] || stack@.contains(b as i32) by {
                if a != idx {
                    assert(pre_visited[a]);
                    if !pre_visited[b] && (b as i32) != index {
                        assert(pre_stack.contains(b as i32));
                    }
                } else {
                    assert(nodes@[a] == node);
                    assert(children(node).contains(b as i32));
                }
            }
            if 0 <= root < nodes@.len() && !visited@[root as int] {
                assert(root != index);
            }
            assert forall|i: int|
                0 <= i < nodes@.len() && #[trigger] visited@[i] && is_leaf(nodes@[i]) && nodes@[i].shape != 0
                    implies seen@.contains(nodes@[i].shape) by {
                if i != idx {
                    assert(pre_visited[i]);
                }
            }
        }
    }
    proof {
        assert forall|a: int, b: int|
            0 <= a < nodes@.len() && visited@[a] && 0 <= b < nodes@.len() && #[trigger] tree_step(nodes@, a, b)
                implies visited@[b] by {
        }
        assert forall|i: int|
            0 <= i < nodes@.len() && tree_reachable(nodes@, root as int, i) && is_leaf(nodes@[i])
                && nodes@[i].shape != 0 implies #[trigger] seen@.contains(nodes@[i].shape) by {
            let p = choose|p: Seq<int>| #[trigger] tree_path(nodes@, p) && p[0] == root as int && p.last() == i;
            lemma_closed_covers_reachable(nodes@, visited@, root as int, p);
            assert(p[p.len() - 1] == i);
        }
    }
    out
}


/// The index triples of a collision mesh that name three vertices, in order,
/// as vertex indices.
pub open spec fn mesh_tris(tris: Seq<[i32; 3]>, vertex_count: int) -> Seq<Tri>
    decreases tris.len(),
{
    if tris.len() == 0 {
        seq![]
    } else {
        let t = tris.last();
        let rest = mesh_tris(tris.drop_last(), vertex_count);
        if 0 <= t[0] < vertex_count && 0 <= t[1] < vertex_count && 0 <= t[2] < vertex_count {
            rest.push((t[0] as usize, t[1] as usize, t[2] as usize))
        } else {
            rest
        }
    }
}

/// Keeps the triangles of a collision mesh whose three indices are not
/// negative and name a vertex.
pub fn mesh_triangles(tris: &Vec<[i32; 3]>, vertex_count: usize) -> (r: Vec<Tri>)
    ensures
        r@ == mesh_tris(tris@, vertex_count as int),
{
    let mut out: Vec<Tri> = Vec::new();
    let mut k: usize = 0;
    while k < tris.len()
        invariant
            k <= tris@.len(),
            out@ == mesh_tris(tris@.subrange(0, k as int), vertex_count as int),
        decreases tris@.len() - k,
    {
        assert(tris@.subrange(0, k + 1).drop_last() =~= tris@.subrange(0, k as int));
        let t = tris[k];
        let (a, b, c) = (t[0], t[1], t[2]);
        if a >= 0 && b >= 0 && c >= 0 && (a as usize) < vertex_count && (b as usize) < vertex_count
            && (c as usize) < vertex_count {
            out.push((a as usize, b as usize, c as usize));
        }
        k += 1;
    }
    assert(tris@.subrange(0, tris@.len() as int) =~= tris@);
    out
}


/// A half edge of a convex hull: the next edge around its face and the
/// vertex it starts at.
#[derive(Debug, Clone, Copy, PartialEq, Eq, Structural)]
pub struct HalfEdge {
    pub next: u8,
    pub origin: u8,
}

/// The edge reached after `k` steps around a face from `start`; -1 once the
/// walk has left the edge list.
pub open spec fn edge_at(edges: Seq<HalfEdge>, start: int, k: nat) -> int
    decreases k,
{
    if k == 0 {
        start
    } else {
        let p = edge_at(edges, start, (k - 1) as nat);
        if 0 <= p < edges.len() {
            edges[p].next as int
        } else {
            -1
        }
    }
}

/// The walk from `start` closes after `m` steps: it comes back to `start`
/// for the first time, within as many steps as there are edges, through
/// edges of the list.
pub open spec fn closes_at(edges: Seq<HalfEdge>, start: int, m: nat) -> bool {
    &&& 1 <= m <= edges.len()
    &&& edge_at(edges, start, m) == start
    &&& forall|k: nat| k < m ==> 0 <= #[trigger] edge_at(edges, start, k) < edges.len()
    &&& forall|k: nat| 1 <= k < m ==> #[trigger] edge_at(edges, start, k) != start
}

/// The vertices of the face around `start`: when the walk closes, the origin
/// of each edge on it, provided all name a vertex and there are at least
/// three; otherwise no face.
pub open spec fn hull_face(edges: Seq<HalfEdge>, start: int, vertex_count: int) -> Option<Seq<usize>> {
    if exists|m: nat| closes_at(edges, start, m) {
        let m = choose|m: nat| closes_at(edges, start, m);
        if m >= 3 && forall|k: nat| k < m ==> (#[trigger] edges[edge_at(edges, start, k)]).origin
            < vertex_count {
            Some(Seq::new(m, |k: int| edges[edge_at(edges, start, k as nat)].origin as usize))
        } else {
            None
        }
    } else {
        None
    }
}

/// Once the walk repeats an edge it keeps repeating.
proof fn lemma_walk_periodic(edges: Seq<HalfEdge>, start: int, j: nat, k: nat, t: nat)
    requires
        edge_at(edges, start, j) == edge_at(edges, start, k),
    ensures
        edge_at(edges, start, j + t) == edge_at(edges, start, k + t),
    decreases t,
{
    if t > 0 {
        lemma_walk_periodic(edges, start, j, k, (t - 1) as nat);
        assert(edge_at(edges, start, j + t) == {
            let p = edge_at(edges, start, (j + t - 1) as nat);
            if 0 <= p < edges.len() {
                edges[p].next as int
            } else {
                -1
            }
        });
        assert(edge_at(edges, start, k + t) == {
            let p = edge_at(edges, start, (k + t - 1) as nat);
            if 0 <= p < edges.len() {
                edges[p].next as int
            } else {
                -1
            }
        });
    }
}

/// A walk that repeats an edge other than its start before coming back never
/// comes back.
proof fn lemma_no_return(edges: Seq<HalfEdge>, start: int, j: nat, k: nat, m: nat)
    requires
        1 <= j < k,
        edge_at(edges, start, j) == edge_at(edges, start, k),
        forall|i: nat| 1 <= i < k ==> #[trigger] edge_at(edges, start, i) != start,
        m >= 1,
    ensures
        edge_at(edges, start, m) != start,
    decreases m,
{
    if m >= k {
        let d = (k - j) as nat;
        let m2 = (m - d) as nat;
        lemma_walk_periodic(edges, start, j, k, (m - k) as nat);
        assert(j + (m - k) == m2 && k + (m - k) == m);
        lemma_no_return(edges, start, j, k, m2);
    }
}

/// Walks the face of a convex hull that starts at edge `start` and gives the
/// vertex of each of its edges, in order; `None` when the walk leaves the
/// edge list, repeats an edge, takes more steps than there are edges, meets
/// an edge whose vertex is not in the vertex list, or closes with fewer than
/// three vertices.
pub fn hull_face_vertices(edges: &Vec<HalfEdge>, start: usize, vertex_count: usize) -> (r: Option<
    Vec<usize>,
>)
    ensures
        match r {
            Some(v) => hull_face(edges@, start as int, vertex_count as int) == Some(v@),
            None => hull_face(edges@, start as int, vertex_count as int) is None,
        },
{
    let n = edges.len();
    let ghost es = edges@;
    let ghost s = start as int;
    if start >= n {
        assert forall|m: nat| !closes_at(es, s, m) by {
            if closes_at(es, s, m) {
                assert(0 <= edge_at(es, s, 0) < es.len());
            }
        }
        return None;
    }
    let mut visited: Vec<bool> = Vec::new();
    let mut q: usize = 0;
    while q < n
        invariant
            q <= n,
            n == es.len(),
            visited@ =~= Seq::new(q as nat, |i: int| false),
        decreases n - q,
    {
        visited.push(false);
        q += 1;
    }
    let mut face: Vec<usize> = Vec::new();
    let mut current: usize = start;
    let mut k: usize = 0;
    loop
        invariant
            n == es.len(),
            es == edges@,
            s == start as int,
            start < n,
            visited@.len() == n,
            k == face@.len(),
            k < n,
            current as int == edge_at(es, s, k as nat),
            k >= 1 ==> current != start,
            forall|j: nat| j < k ==> 0 <= #[trigger] edge_at(es, s, j) < n,
            forall|j: nat| 1 <= j < k ==> #[trigger] edge_at(es, s, j) != s,
            forall|j: nat| j < k ==> #[trigger] face@[j as int] == es[edge_at(es, s, j)].origin as usize
                && face@[j as int] < vertex_count,
            forall|i: int| 0 <= i < n ==> (visited@[i] <==> exists|j: nat| j < k && #[trigger] edge_at(es, s, j) == i),
        decreases n - k,
    {
        if current >= n {
            assert forall|m: nat| !closes_at(es, s, m) by {
                if closes_at(es, s, m) {
                    if m > k {
                        assert(0 <= edge_at(es, s, k as nat) < es.len());
                    } else if m == k {
                    } else {
                        assert(edge_at(es, s, m) != s);
                    }
                }
            }
            return None;
        }
        if visited[current] {
            let ghost j = choose|j: nat| j < k && #[trigger] edge_at(es, s, j) == current as int;
            proof {
                assert(j >= 1) by {
                    if j == 0 {
                        assert(edge_at(es, s, 0) == s);
                    }
                }
                assert forall|m: nat| !closes_at(es, s, m) by {
                    if closes_at(es, s, m) {
                        lemma_no_return(es, s, j, k as nat, m);
                    }
                }
            }
            return None;
        }
        proof {
            assert(!exists|j: nat| j < k && #[trigger] edge_at(es, s, j) == current as int);
        }
        visited.set(current, true);
        let edge = edges[current];
        let vertex = edge.origin as usize;
        if vertex >= vertex_count {
            proof {
                if exists|m: nat| closes_at(es, s, m) {
                    let m = choose|m: nat| closes_at(es, s, m);
                    assert(m > k) by {
                        if m <= k {
                            if m == k {
                            } else {
                                assert(edge_at(es, s, m) != s);
                            }
                        }
                    }
                    assert(es[edge_at(es, s, k as nat)].origin >= vertex_count);
                }
            }
            return None;
        }
        face.push(vertex);
        let ghost k0 = k;
        proof {
            assert(0 <= edge_at(es, s, k0 as nat) < n);
            assert(k0 >= 1 ==> edge_at(es, s, k0 as nat) != s);
        }
        current = edge.next as usize;
        k += 1;
        proof {
            assert(current as int == edge_at(es, s, k as nat));
            assert forall|j: nat| j < k implies 0 <= #[trigger] edge_at(es, s, j) < n by {
                if j < k0 {
                } else {
                    assert(j == k0);
                }
            }
            assert forall|j: nat| 1 <= j < k implies #[trigger] edge_at(es, s, j) != s by {
                if j < k0 {
                } else {
                    assert(j == k0);
                }
            }
            assert forall|i: int| 0 <= i < n implies (visited@[i] <==> exists|j: nat| j < k && #[trigger] edge_at(es, s, j) == i) by {
                if visited@[i] && i != edge_at(es, s, k0 as nat) {
                    let j = choose|j: nat| j < k0 && #[trigger] edge_at(es, s, j) == i;
                    assert(j < k);
                }
                if exists|j: nat| j < k && #[trigger] edge_at(es, s, j) == i {
                    let j = choose|j: nat| j < k && #[trigger] edge_at(es, s, j) == i;
                    if j < k0 {
                    } else {
                        assert(j == k0);
                    }
                }
            }
        }
        if current == start {
            proof {
                assert(closes_at(es, s, k as nat));
                assert forall|m: nat| closes_at(es, s, m) implies m == k by {
                    if m < k {
                        assert(edge_at(es, s, m) != s);
                    } else if m > k {
                        assert(edge_at(es, s, k as nat) != s);
                    }
                }
                let m = choose|m: nat| closes_at(es, s, m);
                assert(m == k);
            }
            if face.len() < 3 {
                return None;
            }
            proof {
                let v = Seq::new(k as nat, |i: int| es[edge_at(es, s, i as nat)].origin as usize);
                assert forall|i: int| 0 <= i < k implies face@[i] == v[i] by {
                    assert(face@[(i as nat) as int] == es[edge_at(es, s, i as nat)].origin as usize);
                }
                assert(face@ =~= v);
                assert forall|j: nat| j < k implies (#[trigger] es[edge_at(es, s, j)]).origin < vertex_count by {
                    assert(face@[j as int] < vertex_count);
                }
            }
            return Some(face);
        }
        if k >= n {
            proof {
                assert forall|m: nat| !closes_at(es, s, m) by {
                    if closes_at(es, s, m) {
                        if m < k {
                            assert(edge_at(es, s, m) != s);
                        } else if m == k {
                        }
                    }
                }
            }
            return None;
        }
    }
}

} // verus!
