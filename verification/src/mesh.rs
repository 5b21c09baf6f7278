use vstd::prelude::*;

verus! {

/// One node of a triangle mesh's bounding-volume hierarchy.
///
/// A node covers the triangles `start..end` of the mesh's triangle list. A leaf
/// covers exactly one triangle, `triangle_index`; an inner node has two children,
/// `left` and `right`, given as indices into the node list. The bounding box of
/// the node is kept beside it by whoever holds the geometry.
#[derive(Clone, Copy, Debug, PartialEq, Eq, Structural)]
pub struct MeshBVHNode {
    pub start: usize,
    pub end: usize,
    pub left: usize,
    pub right: usize,
    pub is_leaf: bool,
    pub triangle_index: usize,
}

/// The split point of the triangle range `start..end`.
pub open spec fn split_point(start: int, end: int) -> int {
    (start + end) / 2
}

/// The nodes that building the hierarchy over `start..end` appends, in the order
/// it appends them (pre-order), when the first of them lands at index `base`.
pub open spec fn bvh_layout(start: int, end: int, base: int) -> Seq<MeshBVHNode>
    decreases end - start,
{
    if end - start <= 1 {
        seq![MeshBVHNode {
            start: start as usize,
            end: end as usize,
            left: 0,
            right: 0,
            is_leaf: true,
            triangle_index: start as usize,
        }]
    } else {
        let mid = split_point(start, end);
        let l = bvh_layout(start, mid, base + 1);
        let r = bvh_layout(mid, end, base + 1 + l.len());
        seq![MeshBVHNode {
            start: start as usize,
            end: end as usize,
            left: (base + 1) as usize,
            right: (base + 1 + l.len()) as usize,
            is_leaf: false,
            triangle_index: 0,
        }] + l + r
    }
}

/// Node `k` of `nodes`, a block of nodes that starts at index `base` of the
/// whole node list, is well formed: its range is not empty, a leaf covers one
/// triangle and names it, and an inner node's children come after it inside the
/// block and split its range at the split point.
pub open spec fn node_well_formed(nodes: Seq<MeshBVHNode>, base: int, k: int) -> bool {
    let nd = nodes[k];
    &&& nd.start < nd.end
    &&& if nd.is_leaf {
        &&& nd.end == nd.start + 1
        &&& nd.triangle_index == nd.start
    } else {
        &&& nd.end > nd.start + 1
        &&& nd.left == base + k + 1
        &&& base + k + 1 < nd.right < base + nodes.len()
        &&& nodes[nd.left - base].start == nd.start
        &&& nodes[nd.left - base].end == split_point(nd.start as int, nd.end as int)
        &&& nodes[nd.right - base].start == split_point(nd.start as int, nd.end as int)
        &&& nodes[nd.right - base].end == nd.end
    }
}

/// Some leaf of `nodes` names triangle `t`.
pub open spec fn has_leaf_for(nodes: Seq<MeshBVHNode>, t: int) -> bool {
    exists|k: int| 0 <= k < nodes.len() && (#[trigger] nodes[k]).is_leaf && nodes[k].triangle_index == t
}

/// Every node of the block is well formed, the block's first node covers
/// `start..end`, and each triangle of `start..end` is named by exactly one leaf.
pub open spec fn block_well_formed(nodes: Seq<MeshBVHNode>, base: int, start: int, end: int) -> bool {
    &&& nodes.len() == 2 * (end - start) - 1
    &&& nodes[0].start == start
    &&& nodes[0].end == end
    &&& forall|k: int| 0 <= k < nodes.len() ==> #[trigger] node_well_formed(nodes, base, k)
    &&& forall|k: int|
        0 <= k < nodes.len() && (#[trigger] nodes[k]).is_leaf ==> start <= nodes[k].triangle_index
            < end
    &&& forall|t: int| start <= t < end ==> #[trigger] has_leaf_for(nodes, t)
    &&& forall|k1: int, k2: int|
        0 <= k1 < nodes.len() && 0 <= k2 < nodes.len() && (#[trigger] nodes[k1]).is_leaf
            && (#[trigger] nodes[k2]).is_leaf && nodes[k1].triangle_index
            == nodes[k2].triangle_index ==> k1 == k2
}

/// The layout over `n` triangles has `2 * n - 1` nodes and its first node covers
/// the whole range.
pub proof fn lemma_layout_shape(start: int, end: int, base: int)
    requires
        0 <= start < end <= usize::MAX,
    ensures
        bvh_layout(start, end, base).len() == 2 * (end - start) - 1,
        bvh_layout(start, end, base)[0].start == start,
        bvh_layout(start, end, base)[0].end == end,
        bvh_layout(start, end, base)[0].is_leaf <==> end == start + 1,
    decreases end - start,
{
    if end - start > 1 {
        let mid = split_point(start, end);
        let l = bvh_layout(start, mid, base + 1);
        lemma_layout_shape(start, mid, base + 1);
        lemma_layout_shape(mid, end, base + 1 + l.len());
    }
}

/// Putting a well-formed inner root in front of two well-formed blocks that
/// split its range gives a block whose nodes are all well formed.
proof fn lemma_join_nodes(root: MeshBVHNode, l: Seq<MeshBVHNode>, r: Seq<MeshBVHNode>, base: int)
    requires
        l.len() >= 1,
        r.len() >= 1,
        !root.is_leaf,
        root.start + 1 < root.end,
        root.left == base + 1,
        root.right == base + 1 + l.len(),
        l[0].start == root.start,
        l[0].end == split_point(root.start as int, root.end as int),
        r[0].start == split_point(root.start as int, root.end as int),
        r[0].end == root.end,
        forall|k: int| 0 <= k < l.len() ==> #[trigger] node_well_formed(l, base + 1, k),
        forall|k: int| 0 <= k < r.len() ==> #[trigger] node_well_formed(r, base + 1 + l.len(), k),
    ensures
        forall|k: int|
            0 <= k < (seq![root] + l + r).len() ==> #[trigger] node_well_formed(
                seq![root] + l + r,
                base,
                k,
            ),
{
    let s = seq![root] + l + r;
    let ll = l.len() as int;
    assert forall|k: int| 0 <= k < s.len() implies #[trigger] node_well_formed(s, base, k) by {
        if k == 0 {
            assert(s[0] == root);
            assert(s[1] == l[0]);
            assert(s[1 + ll] == r[0]);
        } else if k < 1 + ll {
            assert(node_well_formed(l, base + 1, k - 1));
            assert(s[k] == l[k - 1]);
            let nd = s[k];
            if !nd.is_leaf {
                assert(s[nd.left - base] == l[nd.left - base - 1]);
                assert(s[nd.right - base] == l[nd.right - base - 1]);
            }
        } else {
            let j = k - 1 - ll;
            assert(node_well_formed(r, base + 1 + ll, j));
            assert(s[k] == r[j]);
            let nd = s[k];
            if !nd.is_leaf {
                assert(s[nd.left - base] == r[nd.left - base - 1 - ll]);
                assert(s[nd.right - base] == r[nd.right - base - 1 - ll]);
            }
        }
    }
}

/// Every node of the layout is well formed.
pub proof fn lemma_layout_nodes(start: int, end: int, base: int)
    requires
        0 <= start < end <= usize::MAX,
        0 <= base,
        base + 2 * (end - start) <= usize::MAX,
    ensures
        forall|k: int|
            0 <= k < bvh_layout(start, end, base).len() ==> #[trigger] node_well_formed(
                bvh_layout(start, end, base),
                base,
                k,
            ),
    decreases end - start,
{
    let s = bvh_layout(start, end, base);
    lemma_layout_shape(start, end, base);
    if end - start <= 1 {
        assert(node_well_formed(s, base, 0));
    } else {
        let mid = split_point(start, end);
        let l = bvh_layout(start, mid, base + 1);
        lemma_layout_shape(start, mid, base + 1);
        lemma_layout_nodes(start, mid, base + 1);
        let ll = l.len() as int;
        let r = bvh_layout(mid, end, base + 1 + ll);
        lemma_layout_shape(mid, end, base + 1 + ll);
        lemma_layout_nodes(mid, end, base + 1 + ll);
        let root = MeshBVHNode {
            start: start as usize,
            end: end as usize,
            left: (base + 1) as usize,
            right: (base + 1 + ll) as usize,
            is_leaf: false,
            triangle_index: 0,
        };
        assert(s == seq![root] + l + r);
        lemma_join_nodes(root, l, r, base);
    }
}

/// The leaves of the layout name the triangles of its range, each exactly once.
pub proof fn lemma_layout_leaves(start: int, end: int, base: int)
    requires
        0 <= start < end <= usize::MAX,
    ensures
        forall|k: int|
            0 <= k < bvh_layout(start, end, base).len() && (#[trigger] bvh_layout(
                start,
                end,
                base,
            )[k]).is_leaf ==> start <= bvh_layout(start, end, base)[k].triangle_index < end,
        forall|t: int| start <= t < end ==> #[trigger] has_leaf_for(bvh_layout(start, end, base), t),
        forall|k1: int, k2: int|
            0 <= k1 < bvh_layout(start, end, base).len() && 0 <= k2 < bvh_layout(
                start,
                end,
                base,
            ).len() && (#[trigger] bvh_layout(start, end, base)[k1]).is_leaf && (#[trigger] bvh_layout(
                start,
                end,
                base,
            )[k2]).is_leaf && bvh_layout(start, end, base)[k1].triangle_index == bvh_layout(
                start,
                end,
                base,
            )[k2].triangle_index ==> k1 == k2,
    decreases end - start,
{
    let s = bvh_layout(start, end, base);
    if end - start <= 1 {
        assert(s[0].is_leaf && s[0].triangle_index == start);
    } else {
        let mid = split_point(start, end);
        let l = bvh_layout(start, mid, base + 1);
        lemma_layout_leaves(start, mid, base + 1);
        let ll = l.len() as int;
        let r = bvh_layout(mid, end, base + 1 + ll);
        lemma_layout_leaves(mid, end, base + 1 + ll);
        let root = s[0];
        assert(s =~= seq![root] + l + r);
        assert forall|k: int|
            0 <= k < s.len() && (#[trigger] s[k]).is_leaf implies start <= s[k].triangle_index
            < end by {
            if k < 1 + ll {
                assert(s[k] == l[k - 1]);
            } else {
                assert(s[k] == r[k - 1 - ll]);
            }
        }
        assert forall|t: int| start <= t < end implies #[trigger] has_leaf_for(s, t) by {
            if t < mid {
                assert(has_leaf_for(l, t));
                let j = choose|j: int| 0 <= j < l.len() && (#[trigger] l[j]).is_leaf && l[j].triangle_index == t;
                assert(s[j + 1] == l[j]);
            } else {
                assert(has_leaf_for(r, t));
                let j = choose|j: int| 0 <= j < r.len() && (#[trigger] r[j]).is_leaf && r[j].triangle_index == t;
                assert(s[j + 1 + ll] == r[j]);
            }
        }
        assert forall|k1: int, k2: int|
            0 <= k1 < s.len() && 0 <= k2 < s.len() && (#[trigger] s[k1]).is_leaf
                && (#[trigger] s[k2]).is_leaf && s[k1].triangle_index
                == s[k2].triangle_index implies k1 == k2 by {
            if k1 < 1 + ll {
                assert(s[k1] == l[k1 - 1]);
            } else {
                assert(s[k1] == r[k1 - 1 - ll]);
            }
            if k2 < 1 + ll {
                assert(s[k2] == l[k2 - 1]);
            } else {
                assert(s[k2] == r[k2 - 1 - ll]);
            }
        }
    }
}

/// The layout over a non-empty range is a well-formed block: `2 * n - 1` nodes
/// for `n` triangles, children after their parents, and every triangle in
/// exactly one leaf.
pub proof fn lemma_layout_well_formed(start: int, end: int, base: int)
    requires
        0 <= start < end <= usize::MAX,
        0 <= base,
        base + 2 * (end - start) <= usize::MAX,
    ensures
        block_well_formed(bvh_layout(start, end, base), base, start, end),
{
    lemma_layout_shape(start, end, base);
    lemma_layout_nodes(start, end, base);
    lemma_layout_leaves(start, end, base);
}

/// Triangle `t` is named by a leaf reached from node `k` by following child
/// links, each step into a child with a smaller range.
pub open spec fn reaches(nodes: Seq<MeshBVHNode>, k: int, t: int) -> bool
    decreases nodes[k].end - nodes[k].start,
{
    if !(0 <= k < nodes.len()) {
        false
    } else if nodes[k].is_leaf {
        nodes[k].triangle_index == t
    } else {
        let l = nodes[k].left as int;
        let r = nodes[k].right as int;
        if 0 <= l < nodes.len() && 0 <= r < nodes.len() && nodes[l].start <= nodes[l].end
            && nodes[r].start <= nodes[r].end && nodes[l].end - nodes[l].start < nodes[k].end
            - nodes[k].start && nodes[r].end - nodes[r].start < nodes[k].end - nodes[k].start {
            reaches(nodes, l, t) || reaches(nodes, r, t)
        } else {
            false
        }
    }
}

/// In a hierarchy whose nodes are all well formed, every triangle of a node's
/// range is reached from that node, so a traversal that visits both children
/// of every node whose box the ray meets tests every triangle of the range.
pub proof fn lemma_range_reachable(nodes: Seq<MeshBVHNode>, k: int, t: int)
    requires
        forall|j: int| 0 <= j < nodes.len() ==> #[trigger] node_well_formed(nodes, 0, j),
        0 <= k < nodes.len(),
        nodes[k].start <= t < nodes[k].end,
    ensures
        reaches(nodes, k, t),
    decreases nodes[k].end - nodes[k].start,
{
    assert(node_well_formed(nodes, 0, k));
    let nd = nodes[k];
    if !nd.is_leaf {
        let l = nd.left as int;
        let r = nd.right as int;
        assert(node_well_formed(nodes, 0, l));
        assert(node_well_formed(nodes, 0, r));
        if t < split_point(nd.start as int, nd.end as int) {
            lemma_range_reachable(nodes, l, t);
        } else {
            lemma_range_reachable(nodes, r, t);
        }
    }
}

/// Every triangle of a mesh is reached from the root of its hierarchy, and
/// every triangle of any node's range is reached from that node.
pub proof fn lemma_every_triangle_reachable(n: int)
    requires
        0 < n <= usize::MAX / 2,
    ensures
        forall|k: int, t: int|
            0 <= k < bvh_layout(0, n, 0).len() && bvh_layout(0, n, 0)[k].start <= t < bvh_layout(
                0,
                n,
                0,
            )[k].end ==> #[trigger] reaches(bvh_layout(0, n, 0), k, t),
        forall|t: int| 0 <= t < n ==> #[trigger] reaches(bvh_layout(0, n, 0), 0, t),
{
    let nodes = bvh_layout(0, n, 0);
    lemma_layout_well_formed(0, n, 0);
    assert forall|k: int, t: int|
        0 <= k < nodes.len() && nodes[k].start <= t < nodes[k].end implies #[trigger] reaches(
        nodes,
        k,
        t,
    ) by {
        lemma_range_reachable(nodes, k, t);
    }
    assert forall|t: int| 0 <= t < n implies #[trigger] reaches(nodes, 0, t) by {
        lemma_range_reachable(nodes, 0, t);
    }
}

/// Appends the hierarchy over the triangles `start..end` to `nodes`, in
/// pre-order, and returns the index of its root.
pub fn build_bvh(nodes: &mut Vec<MeshBVHNode>, start: usize, end: usize) -> (root: usize)
    requires
        start < end,
        end <= usize::MAX / 2,
        old(nodes).len() + 2 * (end - start) <= usize::MAX,
    ensures
        root == old(nodes).len(),
        final(nodes)@ == old(nodes)@ + bvh_layout(start as int, end as int, old(nodes).len() as int),
    decreases end - start,
{
    let node_index = nodes.len();
    let ghost before = nodes@;
    nodes.push(
        MeshBVHNode { start, end, left: 0, right: 0, is_leaf: false, triangle_index: 0 },
    );
    if end - start == 1 {
        nodes.set(
            node_index,
            MeshBVHNode { start, end, left: 0, right: 0, is_leaf: true, triangle_index: start },
        );
        assert(nodes@ =~= before + bvh_layout(start as int, end as int, node_index as int));
        return node_index;
    }
    let mid = (start + end) / 2;
    proof {
        lemma_layout_shape(start as int, mid as int, node_index + 1);
        lemma_layout_shape(mid as int, end as int, node_index + 1 + 2 * (mid - start) - 1);
    }
    let ghost after_root = nodes@;
    let left = build_bvh(nodes, start, mid);
    let ghost after_left = nodes@;
    let right = build_bvh(nodes, mid, end);
    nodes.set(
        node_index,
        MeshBVHNode { start, end, left, right, is_leaf: false, triangle_index: 0 },
    );
    proof {
        let l = bvh_layout(start as int, mid as int, node_index + 1);
        let r = bvh_layout(mid as int, end as int, node_index + 1 + l.len());
        assert(after_left == after_root + l);
        assert(nodes@ =~= before + bvh_layout(start as int, end as int, node_index as int));
    }
    node_index
}

/// Lays out the hierarchy over a mesh of `n` triangles, as building a mesh
/// hierarchy does: the root is node 0 and covers every triangle.
pub fn mesh_bvh_layout(n: usize) -> (nodes: Vec<MeshBVHNode>)
    requires
        0 < n <= usize::MAX / 2,
    ensures
        nodes@ == bvh_layout(0, n as int, 0),
        block_well_formed(nodes@, 0, 0, n as int),
{
    let mut nodes: Vec<MeshBVHNode> = Vec::new();
    let root = build_bvh(&mut nodes, 0, n);
    proof {
        assert(nodes@ =~= bvh_layout(0, n as int, 0));
        lemma_layout_well_formed(0, n as int, 0);
    }
    nodes
}

/// The twelve triangles of a cube over its eight corners, numbered as the
/// cube builder numbers them: bottom face `0..4` and top face `4..8`, each
/// counter-clockwise from the corner at the smallest coordinates.
pub open spec fn spec_cube_faces() -> Seq<[u32; 3]> {
    seq![
        [0u32, 1, 2],
        [0u32, 2, 3],
        [1u32, 5, 6],
        [1u32, 6, 2],
        [5u32, 4, 7],
        [5u32, 7, 6],
        [4u32, 0, 3],
        [4u32, 3, 7],
        [3u32, 2, 6],
        [3u32, 6, 7],
        [4u32, 5, 1],
        [4u32, 1, 0],
    ]
}

/// The faces of the indexed cube mesh.
pub fn cube_faces() -> (faces: Vec<[u32; 3]>)
    ensures
        faces@ == spec_cube_faces(),
{
    let faces = vec![
        [0, 1, 2],
        [0, 2, 3],
        [1, 5, 6],
        [1, 6, 2],
        [5, 4, 7],
        [5, 7, 6],
        [4, 0, 3],
        [4, 3, 7],
        [3, 2, 6],
        [3, 6, 7],
        [4, 5, 1],
        [4, 1, 0],
    ];
    assert(faces@ =~= spec_cube_faces());
    faces
}

/// Every corner of every face names one of `n` vertices.
pub open spec fn faces_within(faces: Seq<[u32; 3]>, n: int) -> bool {
    forall|f: int, c: int| 0 <= f < faces.len() && 0 <= c < 3 ==> #[trigger] faces[f][c] < n
}

/// The cube's faces name only its eight corners, and there are twelve of them.
pub proof fn lemma_cube_faces_within()
    ensures
        spec_cube_faces().len() == 12,
        faces_within(spec_cube_faces(), 8),
{
    let faces = spec_cube_faces();
    assert forall|f: int, c: int| 0 <= f < faces.len() && 0 <= c < 3 implies #[trigger] faces[f][c]
        < 8 by {
        assert(0 <= c < 3);
    }
}

/// Whether corner `c` of the cube lies on the positive side of `axis` (0 for
/// x, 1 for y, 2 for z), with the corners numbered as the cube builder places
/// them: `(-,-,-)`, `(+,-,-)`, `(+,+,-)`, `(-,+,-)`, then the same four with
/// positive z.
pub open spec fn corner_positive(c: int, axis: int) -> bool {
    if axis == 0 {
        c == 1 || c == 2 || c == 5 || c == 6
    } else if axis == 1 {
        c == 2 || c == 3 || c == 6 || c == 7
    } else {
        c >= 4
    }
}

/// All three corners of `face` lie on the side of the cube where the
/// coordinate `axis` has the given sign.
pub open spec fn on_side(face: [u32; 3], axis: int, positive: bool) -> bool {
    &&& corner_positive(face[0] as int, axis) == positive
    &&& corner_positive(face[1] as int, axis) == positive
    &&& corner_positive(face[2] as int, axis) == positive
}

/// `face` lies on one of the cube's six sides.
pub open spec fn on_some_side(face: [u32; 3]) -> bool {
    exists|axis: int, positive: bool| 0 <= axis < 3 && #[trigger] on_side(face, axis, positive)
}

/// Number of the first `n` faces of `faces` that lie on the given side.
pub open spec fn count_on_side_upto(faces: Seq<[u32; 3]>, axis: int, positive: bool, n: nat) -> nat
    decreases n,
{
    if n == 0 {
        0
    } else {
        count_on_side_upto(faces, axis, positive, (n - 1) as nat) + if on_side(
            faces[n - 1],
            axis,
            positive,
        ) {
            1nat
        } else {
            0nat
        }
    }
}

/// Number of faces among `faces` that lie on the given side.
pub open spec fn count_on_side(faces: Seq<[u32; 3]>, axis: int, positive: bool) -> nat {
    count_on_side_upto(faces, axis, positive, faces.len())
}

/// `face` has corner `c`.
pub open spec fn has_corner(face: [u32; 3], c: int) -> bool {
    face[0] == c || face[1] == c || face[2] == c
}

/// Each side of the cube carries exactly two of its faces.
proof fn lemma_cube_side_counts(axis: int, positive: bool)
    requires
        0 <= axis < 3,
    ensures
        count_on_side(spec_cube_faces(), axis, positive) == 2,
{
    let faces = spec_cube_faces();
    reveal_with_fuel(count_on_side_upto, 13);
    assert(faces.len() == 12);
    if axis == 0 {
        if positive {
            assert(count_on_side_upto(faces, 0, true, 12) == 2);
        } else {
            assert(count_on_side_upto(faces, 0, false, 12) == 2);
        }
    } else if axis == 1 {
        if positive {
            assert(count_on_side_upto(faces, 1, true, 12) == 2);
        } else {
            assert(count_on_side_upto(faces, 1, false, 12) == 2);
        }
    } else {
        if positive {
            assert(count_on_side_upto(faces, 2, true, 12) == 2);
        } else {
            assert(count_on_side_upto(faces, 2, false, 12) == 2);
        }
    }
}

/// The two faces that the cube builder puts on a side: bottom `(2, false)`,
/// `+x`, top, `-x`, `+y`, `-y`, in the order of the face list.
spec fn faces_of_side(axis: int, positive: bool) -> (int, int) {
    if axis == 0 {
        if positive { (2, 3) } else { (6, 7) }
    } else if axis == 1 {
        if positive { (8, 9) } else { (10, 11) }
    } else {
        if positive { (4, 5) } else { (0, 1) }
    }
}

/// Face `f` of the cube has three distinct corners, all on one side.
proof fn lemma_cube_face_on_side(f: int)
    requires
        0 <= f < 12,
    ensures
        spec_cube_faces()[f][0] != spec_cube_faces()[f][1],
        spec_cube_faces()[f][1] != spec_cube_faces()[f][2],
        spec_cube_faces()[f][0] != spec_cube_faces()[f][2],
        on_some_side(spec_cube_faces()[f]),
{
    let faces = spec_cube_faces();
    let axis = if f < 2 || (4 <= f < 6) {
        2int
    } else if f < 4 || (6 <= f < 8) {
        0int
    } else {
        1int
    };
    let positive = (2 <= f < 6) || (8 <= f < 10);
    if f == 0 {
        assert(on_side(faces[0], axis, positive));
    } else if f == 1 {
        assert(on_side(faces[1], axis, positive));
    } else if f == 2 {
        assert(on_side(faces[2], axis, positive));
    } else if f == 3 {
        assert(on_side(faces[3], axis, positive));
    } else if f == 4 {
        assert(on_side(faces[4], axis, positive));
    } else if f == 5 {
        assert(on_side(faces[5], axis, positive));
    } else if f == 6 {
        assert(on_side(faces[6], axis, positive));
    } else if f == 7 {
        assert(on_side(faces[7], axis, positive));
    } else if f == 8 {
        assert(on_side(faces[8], axis, positive));
    } else if f == 9 {
        assert(on_side(faces[9], axis, positive));
    } else if f == 10 {
        assert(on_side(faces[10], axis, positive));
    } else {
        assert(on_side(faces[11], axis, positive));
    }
}

/// Coordinate of corner `c` along `axis`, on a cube of side 2 centred at the
/// origin.
pub open spec fn corner_coord(c: int, axis: int) -> int {
    if corner_positive(c, axis) {
        1
    } else {
        -1
    }
}

/// Component `k` of the edge from the first corner of `face` to its corner
/// `i`.
pub open spec fn face_edge(face: [u32; 3], i: int, k: int) -> int {
    corner_coord(face[i] as int, k) - corner_coord(face[0] as int, k)
}

/// Component `axis` of the normal of `face` by the right-hand rule: the cross
/// product of its edges from the first corner to the second and to the third.
pub open spec fn face_normal(face: [u32; 3], axis: int) -> int {
    let p = (axis + 1) % 3;
    let q = (axis + 2) % 3;
    face_edge(face, 1, p) * face_edge(face, 2, q) - face_edge(face, 1, q) * face_edge(face, 2, p)
}

/// The cube's faces are all wound the same way: the normal of a face on a
/// side is perpendicular to that side and points into the cube.
pub proof fn lemma_cube_faces_wound_inward(f: int, axis: int, positive: bool)
    requires
        0 <= f < 12,
        0 <= axis < 3,
        on_side(spec_cube_faces()[f], axis, positive),
    ensures
        positive ==> face_normal(spec_cube_faces()[f], axis) < 0,
        !positive ==> face_normal(spec_cube_faces()[f], axis) > 0,
        forall|k: int|
            0 <= k < 3 && k != axis ==> #[trigger] face_normal(spec_cube_faces()[f], k) == 0,
{
    let face = spec_cube_faces()[f];
    if f == 0 {
        assert(face == [0u32, 1, 2]);
        assert(face_edge(face, 1, 0) == 2);
        assert(face_edge(face, 1, 1) == 0);
        assert(face_edge(face, 1, 2) == 0);
        assert(face_edge(face, 2, 0) == 2);
        assert(face_edge(face, 2, 1) == 2);
        assert(face_edge(face, 2, 2) == 0);
        assert(face_normal(face, 0) == 0) by (nonlinear_arith)
            requires
                face_edge(face, 1, 0) == 2,
                face_edge(face, 1, 1) == 0,
                face_edge(face, 1, 2) == 0,
                face_edge(face, 2, 0) == 2,
                face_edge(face, 2, 1) == 2,
                face_edge(face, 2, 2) == 0,
        ;
        assert(face_normal(face, 1) == 0) by (nonlinear_arith)
            requires
                face_edge(face, 1, 0) == 2,
                face_edge(face, 1, 1) == 0,
                face_edge(face, 1, 2) == 0,
                face_edge(face, 2, 0) == 2,
                face_edge(face, 2, 1) == 2,
                face_edge(face, 2, 2) == 0,
        ;
        assert(face_normal(face, 2) == 4) by (nonlinear_arith)
            requires
                face_edge(face, 1, 0) == 2,
                face_edge(face, 1, 1) == 0,
                face_edge(face, 1, 2) == 0,
                face_edge(face, 2, 0) == 2,
                face_edge(face, 2, 1) == 2,
                face_edge(face, 2, 2) == 0,
        ;
    } else if f == 1 {
        assert(face == [0u32, 2, 3]);
        assert(face_edge(face, 1, 0) == 2);
        assert(face_edge(face, 1, 1) == 2);
        assert(face_edge(face, 1, 2) == 0);
        assert(face_edge(face, 2, 0) == 0);
        assert(face_edge(face, 2, 1) == 2);
        assert(face_edge(face, 2, 2) == 0);
        assert(face_normal(face, 0) == 0) by (nonlinear_arith)
            requires
                face_edge(face, 1, 0) == 2,
                face_edge(face, 1, 1) == 2,
                face_edge(face, 1, 2) == 0,
                face_edge(face, 2, 0) == 0,
                face_edge(face, 2, 1) == 2,
                face_edge(face, 2, 2) == 0,
        ;
        assert(face_normal(face, 1) == 0) by (nonlinear_arith)
            requires
                face_edge(face, 1, 0) == 2,
                face_edge(face, 1, 1) == 2,
                face_edge(face, 1, 2) == 0,
                face_edge(face, 2, 0) == 0,
                face_edge(face, 2, 1) == 2,
                face_edge(face, 2, 2) == 0,
        ;
        assert(face_normal(face, 2) == 4) by (nonlinear_arith)
            requires
                face_edge(face, 1, 0) == 2,
                face_edge(face, 1, 1) == 2,
                face_edge(face, 1, 2) == 0,
                face_edge(face, 2, 0) == 0,
                face_edge(face, 2, 1) == 2,
                face_edge(face, 2, 2) == 0,
        ;
    } else if f == 2 {
        assert(face == [1u32, 5, 6]);
        assert(face_edge(face, 1, 0) == 0);
        assert(face_edge(face, 1, 1) == 0);
        assert(face_edge(face, 1, 2) == 2);
        assert(face_edge(face, 2, 0) == 0);
        assert(face_edge(face, 2, 1) == 2);
        assert(face_edge(face, 2, 2) == 2);
        assert(face_normal(face, 0) == -4) by (nonlinear_arith)
            requires
                face_edge(face, 1, 0) == 0,
                face_edge(face, 1, 1) == 0,
                face_edge(face, 1, 2) == 2,
                face_edge(face, 2, 0) == 0,
                face_edge(face, 2, 1) == 2,
                face_edge(face, 2, 2) == 2,
        ;
        assert(face_normal(face, 1) == 0) by (nonlinear_arith)
            requires
                face_edge(face, 1, 0) == 0,
                face_edge(face, 1, 1) == 0,
                face_edge(face, 1, 2) == 2,
                face_edge(face, 2, 0) == 0,
                face_edge(face, 2, 1) == 2,
                face_edge(face, 2, 2) == 2,
        ;
        assert(face_normal(face, 2) == 0) by (nonlinear_arith)
            requires
                face_edge(face, 1, 0) == 0,
                face_edge(face, 1, 1) == 0,
                face_edge(face, 1, 2) == 2,
                face_edge(face, 2, 0) == 0,
                face_edge(face, 2, 1) == 2,
                face_edge(face, 2, 2) == 2,
        ;
    } else if f == 3 {
        assert(face == [1u32, 6, 2]);
        assert(face_edge(face, 1, 0) == 0);
        assert(face_edge(face, 1, 1) == 2);
        assert(face_edge(face, 1, 2) == 2);
        assert(face_edge(face, 2, 0) == 0);
        assert(face_edge(face, 2, 1) == 2);
        assert(face_edge(face, 2, 2) == 0);
        assert(face_normal(face, 0) == -4) by (nonlinear_arith)
            requires
                face_edge(face, 1, 0) == 0,
                face_edge(face, 1, 1) == 2,
                face_edge(face, 1, 2) == 2,
                face_edge(face, 2, 0) == 0,
                face_edge(face, 2, 1) == 2,
                face_edge(face, 2, 2) == 0,
        ;
        assert(face_normal(face, 1) == 0) by (nonlinear_arith)
            requires
                face_edge(face, 1, 0) == 0,
                face_edge(face, 1, 1) == 2,
                face_edge(face, 1, 2) == 2,
                face_edge(face, 2, 0) == 0,
                face_edge(face, 2, 1) == 2,
                face_edge(face, 2, 2) == 0,
        ;
        assert(face_normal(face, 2) == 0) by (nonlinear_arith)
            requires
                face_edge(face, 1, 0) == 0,
                face_edge(face, 1, 1) == 2,
                face_edge(face, 1, 2) == 2,
                face_edge(face, 2, 0) == 0,
                face_edge(face, 2, 1) == 2,
                face_edge(face, 2, 2) == 0,
        ;
    } else if f == 4 {
        assert(face == [5u32, 4, 7]);
        assert(face_edge(face, 1, 0) == -2);
        assert(face_edge(face, 1, 1) == 0);
        assert(face_edge(face, 1, 2) == 0);
        assert(face_edge(face, 2, 0) == -2);
        assert(face_edge(face, 2, 1) == 2);
        assert(face_edge(face, 2, 2) == 0);
        assert(face_normal(face, 0) == 0) by (nonlinear_arith)
            requires
                face_edge(face, 1, 0) == -2,
                face_edge(face, 1, 1) == 0,
                face_edge(face, 1, 2) == 0,
                face_edge(face, 2, 0) == -2,
                face_edge(face, 2, 1) == 2,
                face_edge(face, 2, 2) == 0,
        ;
        assert(face_normal(face, 1) == 0) by (nonlinear_arith)
            requires
                face_edge(face, 1, 0) == -2,
                face_edge(face, 1, 1) == 0,
                face_edge(face, 1, 2) == 0,
                face_edge(face, 2, 0) == -2,
                face_edge(face, 2, 1) == 2,
                face_edge(face, 2, 2) == 0,
        ;
        assert(face_normal(face, 2) == -4) by (nonlinear_arith)
            requires
                face_edge(face, 1, 0) == -2,
                face_edge(face, 1, 1) == 0,
                face_edge(face, 1, 2) == 0,
                face_edge(face, 2, 0) == -2,
                face_edge(face, 2, 1) == 2,
                face_edge(face, 2, 2) == 0,
        ;
    } else if f == 5 {
        assert(face == [5u32, 7, 6]);
        assert(face_edge(face, 1, 0) == -2);
        assert(face_edge(face, 1, 1) == 2);
        assert(face_edge(face, 1, 2) == 0);
        assert(face_edge(face, 2, 0) == 0);
        assert(face_edge(face, 2, 1) == 2);
        assert(face_edge(face, 2, 2) == 0);
        assert(face_normal(face, 0) == 0) by (nonlinear_arith)
            requires
                face_edge(face, 1, 0) == -2,
                face_edge(face, 1, 1) == 2,
                face_edge(face, 1, 2) == 0,
                face_edge(face, 2, 0) == 0,
                face_edge(face, 2, 1) == 2,
                face_edge(face, 2, 2) == 0,
        ;
        assert(face_normal(face, 1) == 0) by (nonlinear_arith)
            requires
                face_edge(face, 1, 0) == -2,
                face_edge(face, 1, 1) == 2,
                face_edge(face, 1, 2) == 0,
                face_edge(face, 2, 0) == 0,
                face_edge(face, 2, 1) == 2,
                face_edge(face, 2, 2) == 0,
        ;
        assert(face_normal(face, 2) == -4) by (nonlinear_arith)
            requires
                face_edge(face, 1, 0) == -2,
                face_edge(face, 1, 1) == 2,
                face_edge(face, 1, 2) == 0,
                face_edge(face, 2, 0) == 0,
                face_edge(face, 2, 1) == 2,
                face_edge(face, 2, 2) == 0,
        ;
    } else if f == 6 {
        assert(face == [4u32, 0, 3]);
        assert(face_edge(face, 1, 0) == 0);
        assert(face_edge(face, 1, 1) == 0);
        assert(face_edge(face, 1, 2) == -2);
        assert(face_edge(face, 2, 0) == 0);
        assert(face_edge(face, 2, 1) == 2);
        assert(face_edge(face, 2, 2) == -2);
        assert(face_normal(face, 0) == 4) by (nonlinear_arith)
            requires
                face_edge(face, 1, 0) == 0,
                face_edge(face, 1, 1) == 0,
                face_edge(face, 1, 2) == -2,
                face_edge(face, 2, 0) == 0,
                face_edge(face, 2, 1) == 2,
                face_edge(face, 2, 2) == -2,
        ;
        assert(face_normal(face, 1) == 0) by (nonlinear_arith)
            requires
                face_edge(face, 1, 0) == 0,
                face_edge(face, 1, 1) == 0,
                face_edge(face, 1, 2) == -2,
                face_edge(face, 2, 0) == 0,
                face_edge(face, 2, 1) == 2,
                face_edge(face, 2, 2) == -2,
        ;
        assert(face_normal(face, 2) == 0) by (nonlinear_arith)
            requires
                face_edge(face, 1, 0) == 0,
                face_edge(face, 1, 1) == 0,
                face_edge(face, 1, 2) == -2,
                face_edge(face, 2, 0) == 0,
                face_edge(face, 2, 1) == 2,
                face_edge(face, 2, 2) == -2,
        ;
    } else if f == 7 {
        assert(face == [4u32, 3, 7]);
        assert(face_edge(face, 1, 0) == 0);
        assert(face_edge(face, 1, 1) == 2);
        assert(face_edge(face, 1, 2) == -2);
        assert(face_edge(face, 2, 0) == 0);
        assert(face_edge(face, 2, 1) == 2);
        assert(face_edge(face, 2, 2) == 0);
        assert(face_normal(face, 0) == 4) by (nonlinear_arith)
            requires
                face_edge(face, 1, 0) == 0,
                face_edge(face, 1, 1) == 2,
                face_edge(face, 1, 2) == -2,
                face_edge(face, 2, 0) == 0,
                face_edge(face, 2, 1) == 2,
                face_edge(face, 2, 2) == 0,
        ;
        assert(face_normal(face, 1) == 0) by (nonlinear_arith)
            requires
                face_edge(face, 1, 0) == 0,
                face_edge(face, 1, 1) == 2,
                face_edge(face, 1, 2) == -2,
                face_edge(face, 2, 0) == 0,
                face_edge(face, 2, 1) == 2,
                face_edge(face, 2, 2) == 0,
        ;
        assert(face_normal(face, 2) == 0) by (nonlinear_arith)
            requires
                face_edge(face, 1, 0) == 0,
                face_edge(face, 1, 1) == 2,
                face_edge(face, 1, 2) == -2,
                face_edge(face, 2, 0) == 0,
                face_edge(face, 2, 1) == 2,
                face_edge(face, 2, 2) == 0,
        ;
    } else if f == 8 {
        assert(face == [3u32, 2, 6]);
        assert(face_edge(face, 1, 0) == 2);
        assert(face_edge(face, 1, 1) == 0);
        assert(face_edge(face, 1, 2) == 0);
        assert(face_edge(face, 2, 0) == 2);
        assert(face_edge(face, 2, 1) == 0);
        assert(face_edge(face, 2, 2) == 2);
        assert(face_normal(face, 0) == 0) by (nonlinear_arith)
            requires
                face_edge(face, 1, 0) == 2,
                face_edge(face, 1, 1) == 0,
                face_edge(face, 1, 2) == 0,
                face_edge(face, 2, 0) == 2,
                face_edge(face, 2, 1) == 0,
                face_edge(face, 2, 2) == 2,
        ;
        assert(face_normal(face, 1) == -4) by (nonlinear_arith)
            requires
                face_edge(face, 1, 0) == 2,
                face_edge(face, 1, 1) == 0,
                face_edge(face, 1, 2) == 0,
                face_edge(face, 2, 0) == 2,
                face_edge(face, 2, 1) == 0,
                face_edge(face, 2, 2) == 2,
        ;
        assert(face_normal(face, 2) == 0) by (nonlinear_arith)
            requires
                face_edge(face, 1, 0) == 2,
                face_edge(face, 1, 1) == 0,
                face_edge(face, 1, 2) == 0,
                face_edge(face, 2, 0) == 2,
                face_edge(face, 2, 1) == 0,
                face_edge(face, 2, 2) == 2,
        ;
    } else if f == 9 {
        assert(face == [3u32, 6, 7]);
        assert(face_edge(face, 1, 0) == 2);
        assert(face_edge(face, 1, 1) == 0);
        assert(face_edge(face, 1, 2) == 2);
        assert(face_edge(face, 2, 0) == 0);
        assert(face_edge(face, 2, 1) == 0);
        assert(face_edge(face, 2, 2) == 2);
        assert(face_normal(face, 0) == 0) by (nonlinear_arith)
            requires
                face_edge(face, 1, 0) == 2,
                face_edge(face, 1, 1) == 0,
                face_edge(face, 1, 2) == 2,
                face_edge(face, 2, 0) == 0,
                face_edge(face, 2, 1) == 0,
                face_edge(face, 2, 2) == 2,
        ;
        assert(face_normal(face, 1) == -4) by (nonlinear_arith)
            requires
                face_edge(face, 1, 0) == 2,
                face_edge(face, 1, 1) == 0,
                face_edge(face, 1, 2) == 2,
                face_edge(face, 2, 0) == 0,
                face_edge(face, 2, 1) == 0,
                face_edge(face, 2, 2) == 2,
        ;
        assert(face_normal(face, 2) == 0) by (nonlinear_arith)
            requires
                face_edge(face, 1, 0) == 2,
                face_edge(face, 1, 1) == 0,
                face_edge(face, 1, 2) == 2,
                face_edge(face, 2, 0) == 0,
                face_edge(face, 2, 1) == 0,
                face_edge(face, 2, 2) == 2,
        ;
    } else if f == 10 {
        assert(face == [4u32, 5, 1]);
        assert(face_edge(face, 1, 0) == 2);
        assert(face_edge(face, 1, 1) == 0);
        assert(face_edge(face, 1, 2) == 0);
        assert(face_edge(face, 2, 0) == 2);
        assert(face_edge(face, 2, 1) == 0);
        assert(face_edge(face, 2, 2) == -2);
        assert(face_normal(face, 0) == 0) by (nonlinear_arith)
            requires
                face_edge(face, 1, 0) == 2,
                face_edge(face, 1, 1) == 0,
                face_edge(face, 1, 2) == 0,
                face_edge(face, 2, 0) == 2,
                face_edge(face, 2, 1) == 0,
                face_edge(face, 2, 2) == -2,
        ;
        assert(face_normal(face, 1) == 4) by (nonlinear_arith)
            requires
                face_edge(face, 1, 0) == 2,
                face_edge(face, 1, 1) == 0,
                face_edge(face, 1, 2) == 0,
                face_edge(face, 2, 0) == 2,
                face_edge(face, 2, 1) == 0,
                face_edge(face, 2, 2) == -2,
        ;
        assert(face_normal(face, 2) == 0) by (nonlinear_arith)
            requires
                face_edge(face, 1, 0) == 2,
                face_edge(face, 1, 1) == 0,
                face_edge(face, 1, 2) == 0,
                face_edge(face, 2, 0) == 2,
                face_edge(face, 2, 1) == 0,
                face_edge(face, 2, 2) == -2,
        ;
    } else {
        assert(face == [4u32, 1, 0]);
        assert(face_edge(face, 1, 0) == 2);
        assert(face_edge(face, 1, 1) == 0);
        assert(face_edge(face, 1, 2) == -2);
        assert(face_edge(face, 2, 0) == 0);
        assert(face_edge(face, 2, 1) == 0);
        assert(face_edge(face, 2, 2) == -2);
        assert(face_normal(face, 0) == 0) by (nonlinear_arith)
            requires
                face_edge(face, 1, 0) == 2,
                face_edge(face, 1, 1) == 0,
                face_edge(face, 1, 2) == -2,
                face_edge(face, 2, 0) == 0,
                face_edge(face, 2, 1) == 0,
                face_edge(face, 2, 2) == -2,
        ;
        assert(face_normal(face, 1) == 4) by (nonlinear_arith)
            requires
                face_edge(face, 1, 0) == 2,
                face_edge(face, 1, 1) == 0,
                face_edge(face, 1, 2) == -2,
                face_edge(face, 2, 0) == 0,
                face_edge(face, 2, 1) == 0,
                face_edge(face, 2, 2) == -2,
        ;
        assert(face_normal(face, 2) == 0) by (nonlinear_arith)
            requires
                face_edge(face, 1, 0) == 2,
                face_edge(face, 1, 1) == 0,
                face_edge(face, 1, 2) == -2,
                face_edge(face, 2, 0) == 0,
                face_edge(face, 2, 1) == 0,
                face_edge(face, 2, 2) == -2,
        ;
    }
}

/// The faces on a side of the cube leave none of its corners out: corner `c`
/// belongs to a face that lies on the side of `c` along `axis`.
pub proof fn lemma_cube_corner_covered(axis: int, c: int)
    requires
        0 <= axis < 3,
        0 <= c < 8,
    ensures
        exists|f: int|
            0 <= f < spec_cube_faces().len() && on_side(
                spec_cube_faces()[f],
                axis,
                corner_positive(c, axis),
            ) && #[trigger] has_corner(spec_cube_faces()[f], c),
{
    let faces = spec_cube_faces();
    let positive = corner_positive(c, axis);
    let (f1, f2) = faces_of_side(axis, positive);
    let face1 = faces[f1];
    let face2 = faces[f2];
    assert(on_side(face1, axis, positive));
    assert(on_side(face2, axis, positive));
    assert(has_corner(face1, c) || has_corner(face2, c));
}

/// The cube's faces lie on its sides: each face has three distinct corners
/// and lies on one of the six sides, and each side carries exactly two faces.
pub proof fn lemma_cube_faces_tile_sides()
    ensures
        forall|f: int|
            0 <= f < spec_cube_faces().len() ==> {
                let face = #[trigger] spec_cube_faces()[f];
                &&& face[0] != face[1] && face[1] != face[2] && face[0] != face[2]
                &&& on_some_side(face)
            },
        forall|axis: int, positive: bool|
            0 <= axis < 3 ==> #[trigger] count_on_side(spec_cube_faces(), axis, positive) == 2,
{
    lemma_cube_faces_within();
    assert forall|f: int| 0 <= f < spec_cube_faces().len() implies {
        let face = #[trigger] spec_cube_faces()[f];
        &&& face[0] != face[1] && face[1] != face[2] && face[0] != face[2]
        &&& on_some_side(face)
    } by {
        lemma_cube_face_on_side(f);
    }
    assert forall|axis: int, positive: bool|
        0 <= axis < 3 implies #[trigger] count_on_side(spec_cube_faces(), axis, positive) == 2 by {
        lemma_cube_side_counts(axis, positive);
    }
}

/// Whether every corner of every face names one of `n` vertices, as building
/// triangles from an indexed mesh needs.
pub fn faces_in_bounds(n: usize, faces: &Vec<[u32; 3]>) -> (ok: bool)
    ensures
        ok == faces_within(faces@, n as int),
{
    let mut f: usize = 0;
    while f < faces.len()
        invariant
            f <= faces.len(),
            forall|g: int, c: int| 0 <= g < f && 0 <= c < 3 ==> #[trigger] faces@[g][c] < n,
        decreases faces.len() - f,
    {
        let face = faces[f];
        if face[0] as usize >= n || face[1] as usize >= n || face[2] as usize >= n {
            proof {
                assert(!faces_within(faces@, n as int)) by {
                    if face[0] as usize >= n {
                        assert(faces@[f as int][0] >= n);
                    } else if face[1] as usize >= n {
                        assert(faces@[f as int][1] >= n);
                    } else {
                        assert(faces@[f as int][2] >= n);
                    }
                }
            }
            return false;
        }
        proof {
            assert forall|g: int, c: int| 0 <= g < f + 1 && 0 <= c < 3 implies #[trigger] faces@[g][c]
                < n by {
                if g == f {
                    assert(0 <= c < 3);
                }
            }
        }
        f = f + 1;
    }
    true
}

/// The index of each face, once for each of its corners that names vertex `v`.
pub open spec fn corner_hits(face: [u32; 3], f: int, v: int) -> Seq<usize> {
    (if face[0] == v { seq![f as usize] } else { Seq::empty() }) + (if face[1] == v {
        seq![f as usize]
    } else {
        Seq::empty()
    }) + (if face[2] == v { seq![f as usize] } else { Seq::empty() })
}

/// The first `c` of the entries of `corner_hits`.
pub open spec fn corner_hits_upto(face: [u32; 3], f: int, v: int, c: int) -> Seq<usize> {
    (if c > 0 && face[0] == v { seq![f as usize] } else { Seq::empty() }) + (if c > 1 && face[1]
        == v {
        seq![f as usize]
    } else {
        Seq::empty()
    }) + (if c > 2 && face[2] == v { seq![f as usize] } else { Seq::empty() })
}

/// The faces that touch vertex `v`, in face order, a face once for each of
/// its corners at `v`: the order in which the faces' normals are added into the
/// vertex's normal.
pub open spec fn incidence(faces: Seq<[u32; 3]>, v: int) -> Seq<usize>
    decreases faces.len(),
{
    if faces.len() == 0 {
        Seq::empty()
    } else {
        incidence(faces.drop_last(), v) + corner_hits(faces.last(), faces.len() - 1, v)
    }
}

/// Face `f` touches vertex `v` at one of its corners.
pub open spec fn touches(faces: Seq<[u32; 3]>, f: int, v: int) -> bool {
    faces[f][0] == v || faces[f][1] == v || faces[f][2] == v
}

/// A vertex's list holds exactly the faces that touch it, each no more often
/// than it has corners, and all lists together hold three entries per face.
pub proof fn lemma_incidence_members(faces: Seq<[u32; 3]>, v: int)
    requires
        faces.len() <= usize::MAX,
    ensures
        forall|f: int|
            0 <= f < faces.len() ==> (incidence(faces, v).contains(f as usize) <==> #[trigger] touches(
                faces,
                f,
                v,
            )),
        forall|j: int|
            0 <= j < incidence(faces, v).len() ==> (#[trigger] incidence(faces, v)[j]) < faces.len(),
        incidence(faces, v).len() <= 3 * faces.len(),
    decreases faces.len(),
{
    if faces.len() > 0 {
        let prefix = faces.drop_last();
        let last = faces.len() - 1;
        lemma_incidence_members(prefix, v);
        let hits = corner_hits(faces.last(), last, v);
        let inc = incidence(faces, v);
        assert(inc == incidence(prefix, v) + hits);
        assert forall|j: int| 0 <= j < hits.len() implies #[trigger] hits[j] == last as usize by {}
        assert forall|f: int| 0 <= f < faces.len() implies (inc.contains(f as usize) <==> #[trigger] touches(
            faces,
            f,
            v,
        )) by {
            if f < last {
                assert(prefix[f] == faces[f]);
                assert(touches(prefix, f, v) == touches(faces, f, v));
                if inc.contains(f as usize) {
                    let j = choose|j: int| 0 <= j < inc.len() && inc[j] == f as usize;
                    if j >= incidence(prefix, v).len() {
                        assert(hits[j - incidence(prefix, v).len()] == last as usize);
                    } else {
                        assert(incidence(prefix, v)[j] == f as usize);
                        assert(incidence(prefix, v).contains(f as usize));
                    }
                }
                if touches(faces, f, v) {
                    let j = choose|j: int|
                        0 <= j < incidence(prefix, v).len() && incidence(prefix, v)[j] == f as usize;
                    assert(inc[j] == f as usize);
                }
            } else {
                if touches(faces, f, v) {
                    assert(hits.len() > 0);
                    assert(inc[incidence(prefix, v).len() as int] == f as usize);
                }
                if inc.contains(f as usize) {
                    let j = choose|j: int| 0 <= j < inc.len() && inc[j] == f as usize;
                    if j < incidence(prefix, v).len() {
                        assert(incidence(prefix, v)[j] < prefix.len());
                    } else {
                        assert(hits.len() > 0);
                    }
                }
            }
        }
        assert forall|j: int| 0 <= j < inc.len() implies (#[trigger] inc[j]) < faces.len() by {
            if j < incidence(prefix, v).len() {
                assert(inc[j] == incidence(prefix, v)[j]);
            } else {
                assert(inc[j] == hits[j - incidence(prefix, v).len()]);
            }
        }
    }
}

/// For each of the `n` vertices, the faces that touch it, in the order in
/// which building the triangles of an indexed mesh adds face normals into
/// vertex normals.
pub fn vertex_incidence(n: usize, faces: &Vec<[u32; 3]>) -> (lists: Vec<Vec<usize>>)
    requires
        faces_within(faces@, n as int),
    ensures
        lists.len() == n,
        forall|v: int| 0 <= v < n ==> #[trigger] lists@[v]@ == incidence(faces@, v),
{
    let mut lists: Vec<Vec<usize>> = Vec::new();
    let mut v: usize = 0;
    while v < n
        invariant
            v <= n,
            lists.len() == v,
            forall|w: int| 0 <= w < v ==> #[trigger] lists@[w]@ == Seq::<usize>::empty(),
        decreases n - v,
    {
        lists.push(Vec::new());
        v = v + 1;
    }
    let mut f: usize = 0;
    while f < faces.len()
        invariant
            faces_within(faces@, n as int),
            f <= faces.len(),
            lists.len() == n,
            forall|w: int| 0 <= w < n ==> #[trigger] lists@[w]@ == incidence(faces@.take(f as int), w),
        decreases faces.len() - f,
    {
        let face = faces[f];
        let ghost before = lists@;
        proof {
            assert(face[0] < n && face[1] < n && face[2] < n) by {
                assert(faces@[f as int][0] < n);
                assert(faces@[f as int][1] < n);
                assert(faces@[f as int][2] < n);
            }
        }
        let mut c: usize = 0;
        while c < 3
            invariant
                c <= 3,
                lists.len() == n,
                face == faces@[f as int],
                face[0] < n && face[1] < n && face[2] < n,
                forall|w: int|
                    0 <= w < n ==> #[trigger] lists@[w]@ == before[w]@ + corner_hits_upto(face, f as int, w, c as int),
            decreases 3 - c,
        {
            let vi = face[c] as usize;
            lists[vi].push(f);
            c = c + 1;
        }
        proof {
            let taken = faces@.take(f as int + 1);
            assert(taken.drop_last() =~= faces@.take(f as int));
            assert(taken.last() == face);
            assert forall|w: int| 0 <= w < n implies #[trigger] lists@[w]@ == incidence(taken, w) by {
                assert(corner_hits_upto(face, f as int, w, 3) =~= corner_hits(face, f as int, w));
            }
        }
        f = f + 1;
    }
    proof {
        assert(faces@.take(faces@.len() as int) =~= faces@);
    }
    lists
}

/// An STL mesh as read: its distinct vertices, each coordinate kept as the bit
/// pattern of its 32-bit float, and its faces as indices into the vertices.
pub struct StlMesh {
    pub vertex_bits: Vec<[u32; 3]>,
    pub faces: Vec<[usize; 3]>,
}

/// The indexed mesh that STL bytes decode to, if they decode: vertices as bit
/// patterns in order of first appearance, faces as vertex indices.
pub uninterp spec fn stl_mesh(data: Seq<u8>) -> Option<(Seq<[u32; 3]>, Seq<[usize; 3]>)>;

/// Every corner of every face names one of `n` vertices.
pub open spec fn raw_faces_within(faces: Seq<[usize; 3]>, n: int) -> bool {
    forall|f: int, c: int| 0 <= f < faces.len() && 0 <= c < 3 ==> #[trigger] faces[f][c] < n
}

/// Trusted: `stl_io::read_stl` on the bytes, ASCII or binary STL, keeping each
/// vertex coordinate as its bit pattern. The result is named by `stl_mesh`;
/// the crate's indexing gives every face corner the index of a vertex already
/// pushed, so every face index is below the vertex count. Decoding errors give
/// `None`.
#[verifier::external_body]
fn read_stl_bytes(data: &[u8]) -> (mesh: Option<StlMesh>)
    ensures
        match mesh {
            Some(m) => stl_mesh(data@) == Some((m.vertex_bits@, m.faces@)) && raw_faces_within(
                m.faces@,
                m.vertex_bits@.len() as int,
            ),
            None => stl_mesh(data@) is None,
        },
{
    let mut cursor = std::io::Cursor::new(data);
    match stl_io::read_stl(&mut cursor) {
        Ok(m) => Some(StlMesh {
            vertex_bits: m.vertices.iter().map(|v| v.0.map(|x| x.to_bits())).collect(),
            faces: m.faces.iter().map(|t| t.vertices).collect(),
        }),
        Err(_) => None,
    }
}

/// Reads an STL file held in memory into its vertices and faces; `None` when
/// the bytes are not STL.
pub fn parse_stl_read(data: &[u8]) -> (mesh: Option<StlMesh>)
    ensures
        mesh is None <==> stl_mesh(data@) is None,
        mesh matches Some(m) ==> stl_mesh(data@) == Some((m.vertex_bits@, m.faces@))
            && raw_faces_within(m.faces@, m.vertex_bits@.len() as int),
{
    read_stl_bytes(data)
}

/// A face's vertex indices narrowed to 32 bits, as the mesh loader stores them.
pub open spec fn narrow_face(face: [usize; 3]) -> [u32; 3] {
    [face[0] as u32, face[1] as u32, face[2] as u32]
}

/// The faces with their vertex indices narrowed to 32 bits.
pub fn faces_to_u32(raw: &Vec<[usize; 3]>) -> (faces: Vec<[u32; 3]>)
    ensures
        faces.len() == raw.len(),
        forall|f: int| 0 <= f < raw.len() ==> #[trigger] faces@[f] == narrow_face(raw@[f]),
{
    let mut faces: Vec<[u32; 3]> = Vec::new();
    let mut f: usize = 0;
    while f < raw.len()
        invariant
            f <= raw.len(),
            faces.len() == f,
            forall|g: int| 0 <= g < f ==> #[trigger] faces@[g] == narrow_face(raw@[g]),
        decreases raw.len() - f,
    {
        let t = raw[f];
        faces.push([t[0] as u32, t[1] as u32, t[2] as u32]);
        f = f + 1;
    }
    faces
}

/// Narrowing keeps every index of a mesh with at most 2^32 vertices, so the
/// narrowed faces still name only the mesh's vertices.
pub proof fn lemma_narrowed_faces_within(raw: Seq<[usize; 3]>, narrowed: Seq<[u32; 3]>, n: int)
    requires
        raw_faces_within(raw, n),
        n <= u32::MAX + 1,
        narrowed.len() == raw.len(),
        forall|f: int| 0 <= f < raw.len() ==> #[trigger] narrowed[f] == narrow_face(raw[f]),
    ensures
        faces_within(narrowed, n),
        forall|f: int, c: int|
            0 <= f < raw.len() && 0 <= c < 3 ==> #[trigger] narrowed[f][c] == raw[f][c],
{
    assert forall|f: int, c: int| 0 <= f < raw.len() && 0 <= c < 3 implies #[trigger] narrowed[f][c]
        == raw[f][c] by {
        assert(narrowed[f] == narrow_face(raw[f]));
        assert(raw[f][c] < n);
        if c == 0 {
        } else if c == 1 {
        } else {
        }
    }
    assert forall|f: int, c: int| 0 <= f < narrowed.len() && 0 <= c < 3 implies #[trigger] narrowed[f][c]
        < n by {
        assert(raw[f][c] < n);
        assert(narrowed[f][c] == raw[f][c]);
    }
}

} // verus!
