use vstd::prelude::*;

verus! {

/// A random index below `upper`, drawn from the thread's generator.
///
/// Trusted: `fastrand::usize(0..upper)`, which the crate documents as a random
/// number in the given range; it panics only on an empty range, which
/// `upper > 0` rules out. Which number comes is left open.
#[verifier::external_body]
fn random_index(upper: usize) -> (r: usize)
    requires
        0 < upper,
    ensures
        r < upper,
{
    fastrand::usize(0..upper)
}

/// A child of a scene hierarchy node: either an object of the scene, by its
/// index in the object list, or another node, by its index in the node list.
#[derive(Clone, Copy, Debug, PartialEq, Eq, Structural)]
pub enum BvhChild {
    Object(usize),
    Node(usize),
}

/// One node of the hierarchy over the scene's objects: it covers the objects
/// `start..end` (of the object list as sorted while building), along the
/// coordinate axis `axis` (0, 1 or 2) by which that range is sorted.
#[derive(Clone, Copy, Debug, PartialEq, Eq, Structural)]
pub struct BvhPlanNode {
    pub start: usize,
    pub end: usize,
    pub axis: usize,
    pub left: BvhChild,
    pub right: BvhChild,
}

/// The node with its sorting axis set aside.
pub open spec fn shape(n: BvhPlanNode) -> BvhPlanNode {
    BvhPlanNode { axis: 0, ..n }
}

/// The nodes, axes aside, that planning the hierarchy over the objects
/// `start..end` appends in pre-order when the first lands at index `base`.
/// One object makes a node with that object on both sides, two objects a node
/// with one on each side; more are split in two halves, the first the smaller.
pub open spec fn plan_layout(start: int, end: int, base: int) -> Seq<BvhPlanNode>
    decreases end - start,
{
    if end - start <= 1 {
        seq![BvhPlanNode {
            start: start as usize,
            end: end as usize,
            axis: 0,
            left: BvhChild::Object(start as usize),
            right: BvhChild::Object(start as usize),
        }]
    } else if end - start == 2 {
        seq![BvhPlanNode {
            start: start as usize,
            end: end as usize,
            axis: 0,
            left: BvhChild::Object(start as usize),
            right: BvhChild::Object((start + 1) as usize),
        }]
    } else {
        let mid = start + (end - start) / 2;
        let l = plan_layout(start, mid, base + 1);
        let r = plan_layout(mid, end, base + 1 + l.len());
        seq![BvhPlanNode {
            start: start as usize,
            end: end as usize,
            axis: 0,
            left: BvhChild::Node((base + 1) as usize),
            right: BvhChild::Node((base + 1 + l.len()) as usize),
        }] + l + r
    }
}

/// A child of node `k` of a block placed at `base` points inside the node's
/// range, or to a later node of the block.
pub open spec fn child_well_formed(
    nodes: Seq<BvhPlanNode>,
    base: int,
    k: int,
    c: BvhChild,
) -> bool {
    match c {
        BvhChild::Object(i) => nodes[k].start <= i < nodes[k].end,
        BvhChild::Node(j) => base + k < j < base + nodes.len() && nodes[k].start <= nodes[j
            - base].start && nodes[j - base].end <= nodes[k].end && nodes[j - base].end
            - nodes[j - base].start < nodes[k].end - nodes[k].start,
    }
}

/// Child `c` of a node of a block placed at `base` accounts for object `i`:
/// it is that object, or a node whose range holds it.
pub open spec fn child_covers(nodes: Seq<BvhPlanNode>, base: int, c: BvhChild, i: int) -> bool {
    match c {
        BvhChild::Object(o) => o == i,
        BvhChild::Node(j) => nodes[j - base].start <= i < nodes[j - base].end,
    }
}

/// One of the children of node `k` accounts for object `i`.
pub open spec fn node_covers(nodes: Seq<BvhPlanNode>, base: int, k: int, i: int) -> bool {
    child_covers(nodes, base, nodes[k].left, i) || child_covers(nodes, base, nodes[k].right, i)
}

/// Node `k` of the block has a non-empty range and well-formed children, a
/// child node having a smaller range inside the node's, and its children
/// account for every object of its range.
pub open spec fn plan_node_well_formed(nodes: Seq<BvhPlanNode>, base: int, k: int) -> bool {
    &&& nodes[k].start < nodes[k].end
    &&& child_well_formed(nodes, base, k, nodes[k].left)
    &&& child_well_formed(nodes, base, k, nodes[k].right)
    &&& forall|i: int|
        nodes[k].start <= i < nodes[k].end ==> #[trigger] node_covers(nodes, base, k, i)
}

/// Some node of the block names object `i` as a child.
pub open spec fn names_object(nodes: Seq<BvhPlanNode>, i: int) -> bool {
    exists|k: int|
        0 <= k < nodes.len() && ((#[trigger] nodes[k]).left == BvhChild::Object(i as usize)
            || nodes[k].right == BvhChild::Object(i as usize))
}

/// The planned layout covers its range, its nodes are well formed, and every
/// object of the range is named by some node.
pub open spec fn plan_well_formed(nodes: Seq<BvhPlanNode>, base: int, start: int, end: int) -> bool {
    &&& 1 <= nodes.len() <= 2 * (end - start) - 1
    &&& nodes[0].start == start
    &&& nodes[0].end == end
    &&& forall|k: int| 0 <= k < nodes.len() ==> #[trigger] plan_node_well_formed(nodes, base, k)
    &&& forall|i: int| start <= i < end ==> #[trigger] names_object(nodes, i)
}

/// The plan over `n` objects has at most `2 * n - 1` nodes and its first node
/// covers the whole range.
pub proof fn lemma_plan_shape(start: int, end: int, base: int)
    requires
        0 <= start < end <= usize::MAX,
    ensures
        1 <= plan_layout(start, end, base).len() <= 2 * (end - start) - 1,
        plan_layout(start, end, base)[0].start == start,
        plan_layout(start, end, base)[0].end == end,
    decreases end - start,
{
    if end - start > 2 {
        let mid = start + (end - start) / 2;
        let l = plan_layout(start, mid, base + 1);
        lemma_plan_shape(start, mid, base + 1);
        lemma_plan_shape(mid, end, base + 1 + l.len());
    }
}

/// An inner root in front of two well-formed blocks that split its range gives
/// a block whose nodes are all well formed.
proof fn lemma_join_plan(root: BvhPlanNode, l: Seq<BvhPlanNode>, r: Seq<BvhPlanNode>, base: int)
    requires
        l.len() >= 1,
        r.len() >= 1,
        root.start < root.end,
        root.left == BvhChild::Node((base + 1) as usize),
        root.right == BvhChild::Node((base + 1 + l.len()) as usize),
        0 <= base,
        base + 1 + l.len() + r.len() <= usize::MAX,
        l[0].start == root.start,
        l[0].end == r[0].start,
        r[0].end == root.end,
        forall|k: int| 0 <= k < l.len() ==> #[trigger] plan_node_well_formed(l, base + 1, k),
        forall|k: int|
            0 <= k < r.len() ==> #[trigger] plan_node_well_formed(r, base + 1 + l.len(), k),
    ensures
        forall|k: int|
            0 <= k < (seq![root] + l + r).len() ==> #[trigger] plan_node_well_formed(
                seq![root] + l + r,
                base,
                k,
            ),
{
    let s = seq![root] + l + r;
    let ll = l.len() as int;
    assert forall|k: int| 0 <= k < s.len() implies #[trigger] plan_node_well_formed(s, base, k) by {
        if k == 0 {
            assert(s[0] == root);
            assert(s[1] == l[0]);
            assert(s[1 + ll] == r[0]);
            assert(plan_node_well_formed(l, base + 1, 0));
            assert(plan_node_well_formed(r, base + 1 + ll, 0));
            assert forall|i: int| s[k].start <= i < s[k].end implies #[trigger] node_covers(
                s,
                base,
                k,
                i,
            ) by {}
        } else if k < 1 + ll {
            assert(plan_node_well_formed(l, base + 1, k - 1));
            assert(s[k] == l[k - 1]);
            let nd = s[k];
            if let BvhChild::Node(j) = nd.left {
                assert(s[j - base] == l[j - base - 1]);
            }
            if let BvhChild::Node(j) = nd.right {
                assert(s[j - base] == l[j - base - 1]);
            }
            assert forall|i: int| s[k].start <= i < s[k].end implies #[trigger] node_covers(
                s,
                base,
                k,
                i,
            ) by {
                assert(node_covers(l, base + 1, k - 1, i));
            }
        } else {
            let i = k - 1 - ll;
            assert(plan_node_well_formed(r, base + 1 + ll, i));
            assert(s[k] == r[i]);
            let nd = s[k];
            if let BvhChild::Node(j) = nd.left {
                assert(s[j - base] == r[j - base - 1 - ll]);
            }
            if let BvhChild::Node(j) = nd.right {
                assert(s[j - base] == r[j - base - 1 - ll]);
            }
            assert forall|ii: int| s[k].start <= ii < s[k].end implies #[trigger] node_covers(
                s,
                base,
                k,
                ii,
            ) by {
                assert(node_covers(r, base + 1 + ll, i, ii));
            }
        }
    }
}

/// Every node of the plan is well formed.
pub proof fn lemma_plan_nodes(start: int, end: int, base: int)
    requires
        0 <= start < end <= usize::MAX,
        0 <= base,
        base + 2 * (end - start) <= usize::MAX,
    ensures
        forall|k: int|
            0 <= k < plan_layout(start, end, base).len() ==> #[trigger] plan_node_well_formed(
                plan_layout(start, end, base),
                base,
                k,
            ),
    decreases end - start,
{
    let s = plan_layout(start, end, base);
    lemma_plan_shape(start, end, base);
    if end - start <= 2 {
        assert(plan_node_well_formed(s, base, 0));
    } else {
        let mid = start + (end - start) / 2;
        let l = plan_layout(start, mid, base + 1);
        lemma_plan_shape(start, mid, base + 1);
        lemma_plan_nodes(start, mid, base + 1);
        let ll = l.len() as int;
        let r = plan_layout(mid, end, base + 1 + ll);
        lemma_plan_shape(mid, end, base + 1 + ll);
        lemma_plan_nodes(mid, end, base + 1 + ll);
        let root = BvhPlanNode {
            start: start as usize,
            end: end as usize,
            axis: 0,
            left: BvhChild::Node((base + 1) as usize),
            right: BvhChild::Node((base + 1 + ll) as usize),
        };
        assert(s == seq![root] + l + r);
        lemma_join_plan(root, l, r, base);
    }
}

/// Every object of the range is named by some node of the plan.
pub proof fn lemma_plan_objects(start: int, end: int, base: int)
    requires
        0 <= start < end <= usize::MAX,
    ensures
        forall|i: int| start <= i < end ==> #[trigger] names_object(plan_layout(start, end, base), i),
    decreases end - start,
{
    let s = plan_layout(start, end, base);
    if end - start <= 2 {
        assert forall|i: int| start <= i < end implies #[trigger] names_object(s, i) by {
            assert(s[0].left == BvhChild::Object(i as usize) || s[0].right == BvhChild::Object(
                i as usize,
            ));
        }
    } else {
        let mid = start + (end - start) / 2;
        let l = plan_layout(start, mid, base + 1);
        lemma_plan_objects(start, mid, base + 1);
        let ll = l.len() as int;
        let r = plan_layout(mid, end, base + 1 + ll);
        lemma_plan_objects(mid, end, base + 1 + ll);
        let root = s[0];
        assert(s =~= seq![root] + l + r);
        assert forall|i: int| start <= i < end implies #[trigger] names_object(s, i) by {
            if i < mid {
                assert(names_object(l, i));
                let k = choose|k: int|
                    0 <= k < l.len() && ((#[trigger] l[k]).left == BvhChild::Object(i as usize)
                        || l[k].right == BvhChild::Object(i as usize));
                assert(s[k + 1] == l[k]);
            } else {
                assert(names_object(r, i));
                let k = choose|k: int|
                    0 <= k < r.len() && ((#[trigger] r[k]).left == BvhChild::Object(i as usize)
                        || r[k].right == BvhChild::Object(i as usize));
                assert(s[k + 1 + ll] == r[k]);
            }
        }
    }
}

/// The plan over a non-empty range is well formed.
pub proof fn lemma_plan_well_formed(start: int, end: int, base: int)
    requires
        0 <= start < end <= usize::MAX,
        0 <= base,
        base + 2 * (end - start) <= usize::MAX,
    ensures
        plan_well_formed(plan_layout(start, end, base), base, start, end),
{
    lemma_plan_shape(start, end, base);
    lemma_plan_nodes(start, end, base);
    lemma_plan_objects(start, end, base);
}

/// Object `i` is a child of node `k`, or is reached from one of its child
/// nodes, each step going to a node with a smaller range.
pub open spec fn plan_reaches(nodes: Seq<BvhPlanNode>, k: int, i: int) -> bool
    decreases nodes[k].end - nodes[k].start,
{
    if !(0 <= k < nodes.len()) {
        false
    } else {
        let size = nodes[k].end - nodes[k].start;
        let via_left = match nodes[k].left {
            BvhChild::Object(o) => o == i,
            BvhChild::Node(j) => 0 <= j < nodes.len() && nodes[j as int].start
                <= nodes[j as int].end && nodes[j as int].end - nodes[j as int].start < size
                && plan_reaches(nodes, j as int, i),
        };
        let via_right = match nodes[k].right {
            BvhChild::Object(o) => o == i,
            BvhChild::Node(j) => 0 <= j < nodes.len() && nodes[j as int].start
                <= nodes[j as int].end && nodes[j as int].end - nodes[j as int].start < size
                && plan_reaches(nodes, j as int, i),
        };
        via_left || via_right
    }
}

/// In a plan whose nodes are all well formed, every object of a node's range
/// is reached from that node.
pub proof fn lemma_plan_range_reachable(nodes: Seq<BvhPlanNode>, k: int, i: int)
    requires
        forall|j: int| 0 <= j < nodes.len() ==> #[trigger] plan_node_well_formed(nodes, 0, j),
        0 <= k < nodes.len(),
        nodes[k].start <= i < nodes[k].end,
    ensures
        plan_reaches(nodes, k, i),
    decreases nodes[k].end - nodes[k].start,
{
    assert(plan_node_well_formed(nodes, 0, k));
    assert(node_covers(nodes, 0, k, i));
    let nd = nodes[k];
    if child_covers(nodes, 0, nd.left, i) {
        if let BvhChild::Node(j) = nd.left {
            assert(plan_node_well_formed(nodes, 0, j as int));
            lemma_plan_range_reachable(nodes, j as int, i);
        }
    } else {
        if let BvhChild::Node(j) = nd.right {
            assert(plan_node_well_formed(nodes, 0, j as int));
            lemma_plan_range_reachable(nodes, j as int, i);
        }
    }
}

/// Every object of the scene is reached from the root of the planned
/// hierarchy, so the hierarchy holds every object.
pub proof fn lemma_every_object_reachable(nodes: Seq<BvhPlanNode>, n: int)
    requires
        plan_well_formed(nodes, 0, 0, n),
    ensures
        forall|i: int| 0 <= i < n ==> #[trigger] plan_reaches(nodes, 0, i),
{
    assert forall|i: int| 0 <= i < n implies #[trigger] plan_reaches(nodes, 0, i) by {
        lemma_plan_range_reachable(nodes, 0, i);
    }
}

/// `nodes` is `prefix` followed by the nodes of `layout`, each with some
/// sorting axis below 3.
pub open spec fn extends_with_plan(
    nodes: Seq<BvhPlanNode>,
    prefix: Seq<BvhPlanNode>,
    layout: Seq<BvhPlanNode>,
) -> bool {
    &&& nodes.len() == prefix.len() + layout.len()
    &&& forall|k: int| 0 <= k < prefix.len() ==> #[trigger] nodes[k] == prefix[k]
    &&& forall|k: int|
        0 <= k < layout.len() ==> #[trigger] shape(nodes[prefix.len() + k]) == layout[k]
            && nodes[prefix.len() + k].axis < 3
}

/// Appends the plan of the hierarchy over the objects `start..end` to `nodes`,
/// in pre-order, drawing a random sorting axis for each node before its
/// children, and returns the index of its root.
pub fn plan_bvh(nodes: &mut Vec<BvhPlanNode>, start: usize, end: usize) -> (root: usize)
    requires
        start < end,
        old(nodes).len() + 2 * (end - start) <= usize::MAX,
    ensures
        root == old(nodes).len(),
        extends_with_plan(
            final(nodes)@,
            old(nodes)@,
            plan_layout(start as int, end as int, old(nodes).len() as int),
        ),
    decreases end - start,
{
    let axis = random_index(3);
    let node_index = nodes.len();
    let ghost before = nodes@;
    let span = end - start;
    if span == 1 {
        nodes.push(
            BvhPlanNode {
                start,
                end,
                axis,
                left: BvhChild::Object(start),
                right: BvhChild::Object(start),
            },
        );
        proof {
            let lay = plan_layout(start as int, end as int, node_index as int);
            assert(shape(nodes@[node_index as int]) == lay[0]);
        }
        return node_index;
    }
    if span == 2 {
        nodes.push(
            BvhPlanNode {
                start,
                end,
                axis,
                left: BvhChild::Object(start),
                right: BvhChild::Object(start + 1),
            },
        );
        proof {
            let lay = plan_layout(start as int, end as int, node_index as int);
            assert(shape(nodes@[node_index as int]) == lay[0]);
        }
        return node_index;
    }
    let mid = start + span / 2;
    proof {
        lemma_plan_shape(start as int, mid as int, node_index + 1);
    }
    nodes.push(
        BvhPlanNode {
            start,
            end,
            axis,
            left: BvhChild::Node(0),
            right: BvhChild::Node(0),
        },
    );
    let ghost after_root = nodes@;
    let left = plan_bvh(nodes, start, mid);
    let ghost after_left = nodes@;
    proof {
        lemma_plan_shape(mid as int, end as int, after_left.len() as int);
    }
    let right = plan_bvh(nodes, mid, end);
    nodes.set(
        node_index,
        BvhPlanNode { start, end, axis, left: BvhChild::Node(left), right: BvhChild::Node(right) },
    );
    proof {
        let l = plan_layout(start as int, mid as int, node_index + 1);
        let r = plan_layout(mid as int, end as int, node_index + 1 + l.len());
        let lay = plan_layout(start as int, end as int, node_index as int);
        assert(lay == seq![lay[0]] + l + r);
        assert(after_left.len() == node_index + 1 + l.len());
        assert forall|k: int| 0 <= k < lay.len() implies #[trigger] shape(
            nodes@[node_index + k],
        ) == lay[k] && nodes@[node_index + k].axis < 3 by {
            if k == 0 {
            } else if k < 1 + l.len() {
                assert(shape(after_left[after_root.len() + (k - 1)]) == l[k - 1]);
                assert(nodes@[node_index + k] == after_left[node_index + k]);
            } else {
                assert(shape(nodes@[after_left.len() + (k - 1 - l.len())]) == r[k - 1 - l.len()]);
            }
        }
    }
    node_index
}

/// Plans the hierarchy over a scene of `n` objects: node 0 is the root and
/// covers every object, and every object is reachable from the root.
pub fn plan_objects(n: usize) -> (nodes: Vec<BvhPlanNode>)
    requires
        0 < n <= usize::MAX / 2,
    ensures
        extends_with_plan(nodes@, Seq::empty(), plan_layout(0, n as int, 0)),
        plan_well_formed(nodes@, 0, 0, n as int),
{
    let mut nodes: Vec<BvhPlanNode> = Vec::new();
    let ghost empty = nodes@;
    let root = plan_bvh(&mut nodes, 0, n);
    proof {
        let lay = plan_layout(0, n as int, 0);
        lemma_plan_well_formed(0, n as int, 0);
        assert(empty =~= Seq::<BvhPlanNode>::empty());
        assert forall|k: int| 0 <= k < nodes@.len() implies #[trigger] plan_node_well_formed(
            nodes@,
            0,
            k,
        ) by {
            assert(shape(nodes@[empty.len() + k]) == lay[k]);
            assert(plan_node_well_formed(lay, 0, k));
            let nd = nodes@[k];
            if let BvhChild::Node(j) = nd.left {
                assert(shape(nodes@[empty.len() + j]) == lay[j as int]);
            }
            if let BvhChild::Node(j) = nd.right {
                assert(shape(nodes@[empty.len() + j]) == lay[j as int]);
            }
            assert forall|i: int| nodes@[k].start <= i < nodes@[k].end implies #[trigger] node_covers(
                nodes@,
                0,
                k,
                i,
            ) by {
                assert(node_covers(lay, 0, k, i));
            }
        }
        assert forall|i: int| 0 <= i < n implies #[trigger] names_object(nodes@, i) by {
            assert(names_object(lay, i));
            let k = choose|k: int|
                0 <= k < lay.len() && ((#[trigger] lay[k]).left == BvhChild::Object(i as usize)
                    || lay[k].right == BvhChild::Object(i as usize));
            assert(shape(nodes@[empty.len() + k]) == lay[k]);
        }
        assert(shape(nodes@[empty.len() + 0int]) == lay[0]);
    }
    nodes
}

} // verus!
