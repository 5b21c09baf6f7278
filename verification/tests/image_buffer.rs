use std::collections::hash_map::DefaultHasher;
use std::hash::{Hash, Hasher};

use oxide::renderer::Renderer;

#[test]
fn new_renderer_is_black_with_defaults() {
    let r = Renderer::new(4, 3, None);
    assert_eq!(r.width(), 4);
    assert_eq!(r.height(), 3);
    assert_eq!(r.samples(), 20);
    assert!(!r.adaptive());
    assert_eq!(r.sample_chunk_size(), 32);
    assert_eq!(r.buffer().len(), 36);
    assert!(r.buffer().iter().all(|&b| b == 0));
    assert_eq!(Renderer::new(2, 2, Some(7)).samples(), 7);
}

#[test]
fn empty_image_has_empty_buffer() {
    let mut r = Renderer::new(0, 5, Some(1));
    assert!(r.buffer().is_empty());
    assert!(r.take_buffer_rgba().is_empty());
}

#[test]
fn set_adaptive_toggles() {
    let mut r = Renderer::new(1, 1, None);
    r.set_adaptive(true);
    assert!(r.adaptive());
    r.set_adaptive(false);
    assert!(!r.adaptive());
}

#[test]
fn write_pixel_then_read_back() {
    let mut r = Renderer::new(3, 2, None);
    r.write_pixel(2, 1, [10, 20, 30]);
    let b = r.buffer();
    let off = (1 * 3 + 2) * 3;
    assert_eq!(&b[off..off + 3], &[10, 20, 30]);
    assert_eq!(b.iter().filter(|&&v| v != 0).count(), 3);
    r.write_pixel(0, 0, [1, 2, 3]);
    assert_eq!(&r.buffer()[0..3], &[1, 2, 3]);
    assert_eq!(&r.buffer()[off..off + 3], &[10, 20, 30]);
}

#[test]
fn store_pixels_is_row_major() {
    let mut r = Renderer::new(2, 2, None);
    let px = vec![[1, 2, 3], [4, 5, 6], [7, 8, 9], [10, 11, 12]];
    r.store_pixels(&px);
    assert_eq!(r.buffer(), &vec![1, 2, 3, 4, 5, 6, 7, 8, 9, 10, 11, 12]);
}

#[test]
fn rgba_adds_opaque_alpha() {
    let mut r = Renderer::new(2, 1, None);
    r.write_pixel(0, 0, [9, 8, 7]);
    r.write_pixel(1, 0, [1, 2, 3]);
    let rgba = r.take_buffer_rgba();
    assert_eq!(rgba, vec![9, 8, 7, 255, 1, 2, 3, 255]);
    assert_eq!(r.buffer(), &vec![9, 8, 7, 1, 2, 3]);
}

#[test]
fn rgba_dropping_alpha_gives_buffer_back() {
    let mut r = Renderer::new(3, 3, None);
    for y in 0..3 {
        for x in 0..3 {
            r.write_pixel(x, y, [x as u8, y as u8, (x * y) as u8 + 40]);
        }
    }
    let rgba = r.take_buffer_rgba();
    assert_eq!(rgba.len(), 36);
    let rgb: Vec<u8> = rgba.chunks(4).flat_map(|c| c[..3].to_vec()).collect();
    assert_eq!(&rgb, r.buffer());
    assert!(rgba.chunks(4).all(|c| c[3] == 255));
}

#[test]
fn hash_matches_std_hash_of_the_buffer() {
    let mut r = Renderer::new(5, 4, None);
    r.write_pixel(3, 2, [200, 100, 50]);
    let mut h = DefaultHasher::new();
    r.buffer().hash(&mut h);
    assert_eq!(r.hash_buf(), h.finish());
}

#[test]
fn hash_tells_images_apart() {
    let a = Renderer::new(2, 2, None);
    let mut b = Renderer::new(2, 2, None);
    b.write_pixel(1, 1, [0, 0, 1]);
    assert_ne!(a.hash_buf(), b.hash_buf());
    assert_eq!(a.hash_buf(), Renderer::new(2, 2, Some(3)).hash_buf());
}

#[test]
fn convergence_check_only_when_due() {
    let mut r = Renderer::new(1, 1, None);
    assert!(!r.convergence_check_due(32, 10));
    r.set_adaptive(true);
    assert!(r.convergence_check_due(32, 10));
    assert!(r.convergence_check_due(64, 2));
    assert!(!r.convergence_check_due(33, 10));
    assert!(!r.convergence_check_due(32, 1));
    assert!(!r.convergence_check_due(0, 1));
}
