use oxide::bvh::{plan_objects, BvhChild, BvhPlanNode};
use oxide::mesh::{build_bvh, mesh_bvh_layout, MeshBVHNode};

fn leaf(i: usize) -> MeshBVHNode {
    MeshBVHNode { start: i, end: i + 1, left: 0, right: 0, is_leaf: true, triangle_index: i }
}

fn inner(start: usize, end: usize, left: usize, right: usize) -> MeshBVHNode {
    MeshBVHNode { start, end, left, right, is_leaf: false, triangle_index: 0 }
}

#[test]
fn mesh_layout_single_triangle_is_one_leaf() {
    assert_eq!(mesh_bvh_layout(1), vec![leaf(0)]);
}

#[test]
fn mesh_layout_three_triangles() {
    let nodes = mesh_bvh_layout(3);
    assert_eq!(
        nodes,
        vec![inner(0, 3, 1, 2), leaf(0), inner(1, 3, 3, 4), leaf(1), leaf(2)]
    );
}

#[test]
fn mesh_layout_four_triangles() {
    let nodes = mesh_bvh_layout(4);
    assert_eq!(
        nodes,
        vec![
            inner(0, 4, 1, 4),
            inner(0, 2, 2, 3),
            leaf(0),
            leaf(1),
            inner(2, 4, 5, 6),
            leaf(2),
            leaf(3)
        ]
    );
}

fn check_mesh_layout(n: usize) {
    let nodes = mesh_bvh_layout(n);
    assert_eq!(nodes.len(), 2 * n - 1);
    assert_eq!((nodes[0].start, nodes[0].end), (0, n));
    let mut seen = vec![0usize; n];
    for (k, nd) in nodes.iter().enumerate() {
        assert!(nd.start < nd.end);
        if nd.is_leaf {
            assert_eq!(nd.end, nd.start + 1);
            assert_eq!(nd.triangle_index, nd.start);
            seen[nd.triangle_index] += 1;
        } else {
            let mid = (nd.start + nd.end) / 2;
            assert_eq!(nd.left, k + 1);
            assert!(nd.right > nd.left && nd.right < nodes.len());
            assert_eq!((nodes[nd.left].start, nodes[nd.left].end), (nd.start, mid));
            assert_eq!((nodes[nd.right].start, nodes[nd.right].end), (mid, nd.end));
        }
    }
    assert!(seen.iter().all(|&c| c == 1));
}

#[test]
fn mesh_layout_well_formed_for_many_sizes() {
    for n in 1..70 {
        check_mesh_layout(n);
    }
}

#[test]
fn build_bvh_appends_after_existing_nodes() {
    let mut nodes = vec![leaf(7)];
    let root = build_bvh(&mut nodes, 2, 4);
    assert_eq!(root, 1);
    assert_eq!(nodes, vec![leaf(7), inner(2, 4, 2, 3), leaf(2), leaf(3)]);
}

fn shape(nd: &BvhPlanNode) -> (usize, usize, BvhChild, BvhChild) {
    (nd.start, nd.end, nd.left, nd.right)
}

#[test]
fn plan_single_object_uses_it_twice() {
    let nodes = plan_objects(1);
    assert_eq!(nodes.len(), 1);
    assert_eq!(shape(&nodes[0]), (0, 1, BvhChild::Object(0), BvhChild::Object(0)));
    assert!(nodes[0].axis < 3);
}

#[test]
fn plan_two_objects_one_node() {
    let nodes = plan_objects(2);
    assert_eq!(nodes.len(), 1);
    assert_eq!(shape(&nodes[0]), (0, 2, BvhChild::Object(0), BvhChild::Object(1)));
}

#[test]
fn plan_three_objects() {
    let nodes = plan_objects(3);
    let shapes: Vec<_> = nodes.iter().map(shape).collect();
    assert_eq!(
        shapes,
        vec![
            (0, 3, BvhChild::Node(1), BvhChild::Node(2)),
            (0, 1, BvhChild::Object(0), BvhChild::Object(0)),
            (1, 3, BvhChild::Object(1), BvhChild::Object(2)),
        ]
    );
}

#[test]
fn plan_five_objects() {
    let nodes = plan_objects(5);
    let shapes: Vec<_> = nodes.iter().map(shape).collect();
    assert_eq!(
        shapes,
        vec![
            (0, 5, BvhChild::Node(1), BvhChild::Node(2)),
            (0, 2, BvhChild::Object(0), BvhChild::Object(1)),
            (2, 5, BvhChild::Node(3), BvhChild::Node(4)),
            (2, 3, BvhChild::Object(2), BvhChild::Object(2)),
            (3, 5, BvhChild::Object(3), BvhChild::Object(4)),
        ]
    );
}

#[test]
fn plan_reaches_every_object() {
    for n in 1..60 {
        let nodes = plan_objects(n);
        assert!(nodes.len() <= 2 * n - 1);
        let mut named = vec![false; n];
        for (k, nd) in nodes.iter().enumerate() {
            assert!(nd.axis < 3);
            assert!(nd.start < nd.end);
            for c in [nd.left, nd.right] {
                match c {
                    BvhChild::Object(i) => {
                        assert!(nd.start <= i && i < nd.end);
                        named[i] = true;
                    }
                    BvhChild::Node(j) => {
                        assert!(j > k && j < nodes.len());
                        assert!(nd.start <= nodes[j].start && nodes[j].end <= nd.end);
                    }
                }
            }
        }
        assert!(named.iter().all(|&b| b));
    }
}

#[test]
fn plan_axes_are_random_and_in_range() {
    fastrand::seed(7);
    let nodes = plan_objects(40);
    assert!(nodes.iter().all(|nd| nd.axis < 3));
    assert!(nodes.iter().any(|nd| nd.axis != nodes[0].axis));
}

fn mesh_leaves_under(nodes: &[MeshBVHNode], k: usize, out: &mut Vec<usize>) {
    let nd = nodes[k];
    if nd.is_leaf {
        out.push(nd.triangle_index);
    } else {
        mesh_leaves_under(nodes, nd.left, out);
        mesh_leaves_under(nodes, nd.right, out);
    }
}

#[test]
fn every_triangle_reached_from_every_covering_node() {
    for n in 1..40 {
        let nodes = mesh_bvh_layout(n);
        for (k, nd) in nodes.iter().enumerate() {
            let mut found = Vec::new();
            mesh_leaves_under(&nodes, k, &mut found);
            assert_eq!(found, (nd.start..nd.end).collect::<Vec<_>>());
        }
    }
}

fn plan_objects_under(nodes: &[BvhPlanNode], k: usize, out: &mut Vec<usize>) {
    for c in [nodes[k].left, nodes[k].right] {
        match c {
            BvhChild::Object(i) => out.push(i),
            BvhChild::Node(j) => plan_objects_under(nodes, j, out),
        }
    }
}

#[test]
fn every_object_reached_from_the_root() {
    for n in 1..40 {
        let nodes = plan_objects(n);
        let mut found = Vec::new();
        plan_objects_under(&nodes, 0, &mut found);
        found.dedup();
        assert_eq!(found, (0..n).collect::<Vec<_>>());
    }
}
