use oxide::mesh::{cube_faces, faces_in_bounds, faces_to_u32, parse_stl_read, vertex_incidence};
use oxide::scene::HdrSkyId;
use oxide::sky::texel_index;

#[test]
fn cube_has_twelve_faces_over_eight_corners() {
    let faces = cube_faces();
    assert_eq!(faces.len(), 12);
    assert_eq!(faces[0], [0, 1, 2]);
    assert_eq!(faces[11], [4, 1, 0]);
    assert!(faces_in_bounds(8, &faces));
    assert!(!faces_in_bounds(7, &faces));
}

#[test]
fn cube_uses_every_corner() {
    let faces = cube_faces();
    let lists = vertex_incidence(8, &faces);
    assert!(lists.iter().all(|l| !l.is_empty()));
    assert_eq!(lists.iter().map(|l| l.len()).sum::<usize>(), 36);
}

#[test]
fn out_of_range_corner_is_caught() {
    assert!(faces_in_bounds(3, &vec![[0, 1, 2]]));
    assert!(!faces_in_bounds(3, &vec![[0, 1, 2], [2, 3, 0]]));
    assert!(!faces_in_bounds(0, &vec![[0, 0, 0]]));
    assert!(faces_in_bounds(0, &Vec::new()));
}

#[test]
fn incidence_lists_faces_in_order_once_per_corner() {
    let faces = vec![[0, 1, 2], [2, 1, 3], [3, 3, 0]];
    let lists = vertex_incidence(5, &faces);
    assert_eq!(lists[0], vec![0, 2]);
    assert_eq!(lists[1], vec![0, 1]);
    assert_eq!(lists[2], vec![0, 1]);
    assert_eq!(lists[3], vec![1, 2, 2]);
    assert!(lists[4].is_empty());
}

#[test]
fn narrowing_truncates_like_a_cast() {
    let big = (1usize << 32) + 5;
    assert_eq!(faces_to_u32(&vec![[1, 2, 3], [big, 0, 7]]), vec![[1, 2, 3], [5, 0, 7]]);
    assert!(faces_to_u32(&Vec::new()).is_empty());
}

const ASCII_STL: &[u8] = b"solid foobar
facet normal 0 0 1
    outer loop
        vertex 1 2 3
        vertex 4 5 6
        vertex 7 8 9
    endloop
endfacet
facet normal 0 0 1
    outer loop
        vertex 7 8 9
        vertex 4 5 6
        vertex 0 0 0
    endloop
endfacet
endsolid foobar";

#[test]
fn ascii_stl_is_indexed_with_shared_vertices() {
    let mesh = parse_stl_read(ASCII_STL).expect("valid STL");
    let bits = |a: f32, b: f32, c: f32| [a.to_bits(), b.to_bits(), c.to_bits()];
    assert_eq!(
        mesh.vertex_bits,
        vec![bits(1.0, 2.0, 3.0), bits(4.0, 5.0, 6.0), bits(7.0, 8.0, 9.0), bits(0.0, 0.0, 0.0)]
    );
    assert_eq!(mesh.faces, vec![[0, 1, 2], [2, 1, 3]]);
}

#[test]
fn binary_stl_is_read() {
    let mut data = vec![0u8; 80];
    data.extend_from_slice(&1u32.to_le_bytes());
    for v in [0.0f32, 0.0, 1.0, 0.5, 0.0, 0.0, 0.0, 0.5, 0.0, 0.0, 0.0, 0.5] {
        data.extend_from_slice(&v.to_le_bytes());
    }
    data.extend_from_slice(&[0, 0]);
    let mesh = parse_stl_read(&data).expect("valid binary STL");
    assert_eq!(mesh.faces, vec![[0, 1, 2]]);
    assert_eq!(mesh.vertex_bits[0], [0.5f32.to_bits(), 0, 0]);
    let faces = faces_to_u32(&mesh.faces);
    assert!(faces_in_bounds(mesh.vertex_bits.len(), &faces));
}

#[test]
fn garbage_is_not_stl() {
    assert!(parse_stl_read(b"not an stl file").is_none());
    assert!(parse_stl_read(&[]).is_none());
}

#[test]
fn sky_paths() {
    assert_eq!(HdrSkyId::CitrusOrchard.path(), "web/res/citrus_orchard_road_puresky_4k.hdr");
    assert_eq!(HdrSkyId::QwantaniMoonrise.path(), "web/res/qwantani_moonrise_puresky_4k.hdr");
}

#[test]
fn texel_index_wraps_both_ways() {
    assert_eq!(texel_index(0, 0, 4, 2), 0);
    assert_eq!(texel_index(3, 1, 4, 2), 7);
    assert_eq!(texel_index(5, 2, 4, 2), 1);
    assert_eq!(texel_index(9, 7, 4, 2), 5);
}
