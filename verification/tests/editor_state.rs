use oxide::editor::{
    hdr_sky_by_index, sky_count, sky_name, sky_preset, MaterialKind, ObjectKind, SceneObjects,
    SkyPreset,
};
use oxide::scene::HdrSkyId;

#[test]
fn sky_table_lists_four_presets() {
    assert_eq!(sky_count(), 4);
    assert_eq!(sky_name(0), "Gradient (default)");
    assert_eq!(sky_name(1), "Sunset Gradient");
    assert_eq!(sky_name(2), "Solid Black");
    assert_eq!(sky_name(3), "Solid White");
    assert_eq!(sky_name(4), "");
    assert_eq!(sky_name(u32::MAX), "");
    assert_eq!(sky_preset(1), Some(SkyPreset::SunsetGradient));
    assert_eq!(sky_preset(9), None);
}

#[test]
fn hdr_skies_by_index() {
    assert_eq!(hdr_sky_by_index(0), Some(HdrSkyId::CitrusOrchard));
    assert_eq!(hdr_sky_by_index(1), Some(HdrSkyId::QwantaniMoonrise));
    assert_eq!(hdr_sky_by_index(2), None);
}

#[test]
fn material_codes_round_trip() {
    for code in 0..5u32 {
        assert_eq!(MaterialKind::from_code(code).code(), code);
    }
    assert_eq!(MaterialKind::from_code(1), MaterialKind::Metal);
    assert_eq!(MaterialKind::from_code(4), MaterialKind::Checkerboard);
    assert_eq!(MaterialKind::from_code(17), MaterialKind::Lambertian);
    assert_eq!(MaterialKind::DiffuseLight.code(), 3);
}

#[test]
fn type_codes() {
    assert_eq!(ObjectKind::Sphere.type_code(), 0);
    assert_eq!(ObjectKind::Ground.type_code(), 0);
    assert_eq!(ObjectKind::Cube.type_code(), 1);
    assert_eq!(ObjectKind::Mesh.type_code(), 2);
}

fn sample() -> SceneObjects<&'static str, i32, Vec<u8>> {
    let mut s = SceneObjects::new();
    assert_eq!(s.push("teapot", ObjectKind::Mesh, 0, Some(vec![1])), 0);
    assert_eq!(s.push("ball", ObjectKind::Sphere, 1, None), 1);
    assert_eq!(s.push("floor", ObjectKind::Ground, 2, None), 2);
    s
}

#[test]
fn push_reports_indices_and_keeps_lists_aligned() {
    let s = sample();
    assert_eq!(s.len(), 3);
    assert_eq!(s.object_count(), 3);
    assert_eq!(s.object(1), Some(&"ball"));
    assert_eq!(s.kind(2), Some(ObjectKind::Ground));
    assert_eq!(s.rotation(0), Some(&0));
    assert_eq!(s.base(0), Some(&Some(vec![1])));
    assert_eq!(s.object(3), None);
    assert_eq!(s.kind(3), None);
}

#[test]
fn remove_shifts_every_list() {
    let mut s = sample();
    s.remove(0);
    assert_eq!(s.len(), 2);
    assert_eq!(s.object(0), Some(&"ball"));
    assert_eq!(s.kind(0), Some(ObjectKind::Sphere));
    assert_eq!(s.rotation(1), Some(&2));
    assert_eq!(s.base(0), Some(&None));
    s.remove(5);
    assert_eq!(s.len(), 2);
}

#[test]
fn push_then_remove_restores() {
    let mut s = sample();
    let i = s.push("cube", ObjectKind::Cube, 9, None);
    s.remove(i);
    let (o, k, r, b) = s.parts();
    assert_eq!(o, &vec!["teapot", "ball", "floor"]);
    assert_eq!(k, &vec![ObjectKind::Mesh, ObjectKind::Sphere, ObjectKind::Ground]);
    assert_eq!(r, &vec![0, 1, 2]);
    assert_eq!(b, &vec![Some(vec![1]), None, None]);
}

#[test]
fn updates_touch_one_entry() {
    let mut s = sample();
    assert!(s.set_object(1, "marble"));
    assert!(!s.set_object(3, "nothing"));
    s.set_rotation(2, 42);
    s.set_rotation(7, 1);
    assert_eq!(s.parts().0, &vec!["teapot", "marble", "floor"]);
    assert_eq!(s.parts().2, &vec![0, 1, 42]);
}

#[test]
fn picks_skip_the_ground() {
    let s = sample();
    assert_eq!(s.pick_result(Some(0)), 0);
    assert_eq!(s.pick_result(Some(1)), 1);
    assert_eq!(s.pick_result(Some(2)), -1);
    assert_eq!(s.pick_result(Some(3)), -1);
    assert_eq!(s.pick_result(None), -1);
}

#[test]
fn parts_must_line_up() {
    let ok = SceneObjects::from_parts(vec![1u8], vec![ObjectKind::Cube], vec![0u8], vec![None::<u8>]);
    assert!(ok.is_some());
    let bad = SceneObjects::from_parts(vec![1u8, 2], vec![ObjectKind::Cube], vec![0u8, 0], vec![None::<u8>, None]);
    assert!(bad.is_none());
}
