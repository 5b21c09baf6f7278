use oxide::world::outline_mask;

fn grid(width: usize, height: usize, on: &[(usize, usize)]) -> Vec<bool> {
    let mut v = vec![false; width * height];
    for &(x, y) in on {
        v[y * width + x] = true;
    }
    v
}

#[test]
fn radius_one_rings_a_single_pixel() {
    let sel = grid(5, 5, &[(2, 2)]);
    let out = outline_mask(&sel, 5, 5, 1);
    for y in 0..5 {
        for x in 0..5 {
            let ring = (x as i32 - 2).abs() <= 1 && (y as i32 - 2).abs() <= 1 && (x, y) != (2, 2);
            assert_eq!(out[y * 5 + x], if ring { 255 } else { 0 }, "at {x},{y}");
        }
    }
}

#[test]
fn radius_zero_gives_no_outline() {
    let sel = grid(4, 3, &[(0, 0), (3, 2), (1, 1)]);
    assert!(outline_mask(&sel, 4, 3, 0).iter().all(|&v| v == 0));
}

#[test]
fn selected_pixels_are_never_outlined() {
    let sel = grid(4, 4, &[(1, 1), (2, 1), (1, 2)]);
    let out = outline_mask(&sel, 4, 4, 2);
    for i in 0..16 {
        if sel[i] {
            assert_eq!(out[i], 0);
        }
    }
}

#[test]
fn window_is_clipped_at_the_border() {
    let sel = grid(3, 2, &[(0, 0)]);
    let out = outline_mask(&sel, 3, 2, 5);
    assert_eq!(out, vec![0, 255, 255, 255, 255, 255]);
}

#[test]
fn no_selection_no_outline() {
    let sel = vec![false; 12];
    assert_eq!(outline_mask(&sel, 4, 3, 3), vec![0; 12]);
}

#[test]
fn empty_image_gives_empty_outline() {
    assert!(outline_mask(&Vec::new(), 0, 0, 2).is_empty());
    assert!(outline_mask(&Vec::new(), 3, 0, 2).is_empty());
}

#[test]
fn radius_two_reaches_two_pixels_away() {
    let sel = grid(7, 1, &[(3, 0)]);
    assert_eq!(outline_mask(&sel, 7, 1, 2), vec![0, 255, 255, 0, 255, 255, 0]);
}

#[test]
fn huge_radius_clips_to_the_image() {
    // Lower pixel of a one-column, two-row image selected: the upper pixel is
    // outlined whatever the radius, even one that reaches past usize::MAX.
    let sel = vec![false, true];
    assert_eq!(outline_mask(&sel, 1, 2, usize::MAX), vec![255, 0]);
    let sel = vec![true, false, false, false, false, true];
    assert_eq!(outline_mask(&sel, 3, 2, usize::MAX), vec![0, 255, 255, 255, 255, 0]);
}
