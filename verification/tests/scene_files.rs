use std::io::{Read, Write};

use oxide::scene::{compress_scene, decompress_scene, SCENE_GZIP_LEVEL};

#[test]
fn compressed_scene_decompresses_to_its_bytes() {
    let data: Vec<u8> = (0..1000u32).map(|i| (i % 7) as u8).collect();
    let z = compress_scene(&data);
    assert_ne!(z, data);
    assert_eq!(&z[..2], &[0x1f, 0x8b]);
    assert_eq!(decompress_scene(&z), (data, true));
}

#[test]
fn compression_matches_gzip_at_best_level() {
    assert_eq!(SCENE_GZIP_LEVEL, 9);
    let data = b"scene bytes scene bytes scene bytes".to_vec();
    let mut enc = flate2::write::GzEncoder::new(Vec::new(), flate2::Compression::best());
    enc.write_all(&data).unwrap();
    let expected = enc.finish().unwrap();
    assert_eq!(compress_scene(&data), expected);
}

#[test]
fn decompression_matches_gzip_reader() {
    let data = vec![42u8; 300];
    let mut enc = flate2::write::GzEncoder::new(Vec::new(), flate2::Compression::fast());
    enc.write_all(&data).unwrap();
    let z = enc.finish().unwrap();
    let mut expected = Vec::new();
    flate2::read::GzDecoder::new(&z[..]).read_to_end(&mut expected).unwrap();
    assert_eq!(decompress_scene(&z), (expected, true));
}

#[test]
fn empty_scene_bytes_round_trip() {
    let z = compress_scene(&[]);
    assert_eq!(decompress_scene(&z), (Vec::new(), true));
}

#[test]
fn bytes_that_are_no_gzip_give_nothing() {
    assert_eq!(decompress_scene(b"plain text"), (Vec::new(), false));
    assert_eq!(decompress_scene(&[]), (Vec::new(), false));
}

#[test]
fn damaged_trailer_keeps_the_bytes_but_fails_the_check() {
    let data = b"some scene".to_vec();
    let z = compress_scene(&data);
    assert_eq!(decompress_scene(&z[..z.len() - 3]), (data.clone(), false));
    let mut bad_crc = z.clone();
    let n = bad_crc.len();
    bad_crc[n - 8] ^= 0xff;
    assert_eq!(decompress_scene(&bad_crc), (data, false));
}
