use image::codecs::hdr::HdrEncoder;
use image::Rgb;
use oxide::sky::sky_texels_from_bytes;

fn hdr_bytes(pixels: &[Rgb<f32>], width: usize, height: usize) -> Vec<u8> {
    let mut out = Vec::new();
    HdrEncoder::new(&mut out).encode(pixels, width, height).unwrap();
    out
}

#[test]
fn decodes_hdr_texels_row_by_row() {
    let pixels = [
        Rgb([1.0f32, 0.5, 0.25]),
        Rgb([2.0f32, 2.0, 2.0]),
        Rgb([0.0f32, 0.0, 0.0]),
        Rgb([0.5f32, 1.0, 0.125]),
        Rgb([4.0f32, 1.0, 0.5]),
        Rgb([0.25f32, 0.25, 0.25]),
    ];
    let bytes = hdr_bytes(&pixels, 3, 2);
    let t = sky_texels_from_bytes(&bytes).expect("valid HDR image");
    assert_eq!(t.width, 3);
    assert_eq!(t.height, 2);
    assert_eq!(t.texel_bits.len(), 3 * 3 * 2);
    let values: Vec<f32> = t.texel_bits.iter().map(|b| f32::from_bits(*b)).collect();
    let expected: Vec<f32> = pixels.iter().flat_map(|p| p.0).collect();
    assert_eq!(values, expected);
}

#[test]
fn bytes_that_are_no_image_give_none() {
    assert!(sky_texels_from_bytes(b"not an image at all").is_none());
    assert!(sky_texels_from_bytes(&[]).is_none());
}

#[test]
fn truncated_hdr_gives_none() {
    let pixels = [Rgb([1.0f32, 1.0, 1.0]); 16];
    let bytes = hdr_bytes(&pixels, 4, 4);
    assert!(sky_texels_from_bytes(&bytes[..bytes.len() - 5]).is_none());
}
