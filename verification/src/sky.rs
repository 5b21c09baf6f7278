use vstd::prelude::*;

verus! {

/// Index of the sky-map texel hit by the pixel coordinates `(px, py)`: each
/// coordinate wraps around its side of the `width` by `height` map, and the map
/// is stored row by row.
pub fn texel_index(px: usize, py: usize, width: usize, height: usize) -> (i: usize)
    requires
        width > 0,
        height > 0,
        width * height <= usize::MAX,
    ensures
        i == (py % height) * width + px % width,
        i < width * height,
{
    let x = px % width;
    let y = py % height;
    proof {
        assert(y * width + x < width * height) by (nonlinear_arith)
            requires
                x < width,
                y < height,
        {
            assert(y * width <= (height - 1) * width);
        }
    }
    y * width + x
}


/// A decoded sky map: `width` by `height` texels, row by row, three channels
/// each, every channel kept as the bit pattern of its 32-bit float.
pub struct HdrTexels {
    pub width: usize,
    pub height: usize,
    pub texel_bits: Vec<u32>,
}

/// The texels that image bytes decode to, if they decode: width, height and
/// the RGB channels as 32-bit float bit patterns, row by row.
pub uninterp spec fn hdr_texels(data: Seq<u8>) -> Option<(usize, usize, Seq<u32>)>;

/// Trusted: the `image` crate's reader on the bytes (`ImageReader::new` on a
/// cursor, `with_guessed_format`, `decode`), then `to_rgb32f` and `into_raw`,
/// each channel kept as its bit pattern. The format is guessed from the bytes
/// alone (this crate registers no decoding hooks), so the result is named by
/// `hdr_texels`. The decoders fill a buffer of exactly `width * height` pixels,
/// and the conversion to RGB keeps that size, so there are three channels per
/// texel. A failed guess or decode gives `None`.
#[verifier::external_body]
fn decode_hdr_bytes(data: &[u8]) -> (img: Option<HdrTexels>)
    ensures
        match img {
            Some(t) => hdr_texels(data@) == Some((t.width, t.height, t.texel_bits@))
                && t.texel_bits@.len() == 3 * t.width * t.height,
            None => hdr_texels(data@) is None,
        },
{
    let reader = image::ImageReader::new(std::io::Cursor::new(data)).with_guessed_format().ok()?;
    let img = reader.decode().ok()?.to_rgb32f();
    let (width, height) = (img.width() as usize, img.height() as usize);
    let texel_bits = img.into_raw().iter().map(|c| c.to_bits()).collect();
    Some(HdrTexels { width, height, texel_bits })
}

/// Decodes a sky map held in memory (Radiance HDR, or another format the
/// image reader recognizes); `None` when the bytes are no image.
pub fn sky_texels_from_bytes(data: &[u8]) -> (img: Option<HdrTexels>)
    ensures
        img is None <==> hdr_texels(data@) is None,
        img matches Some(t) ==> hdr_texels(data@) == Some((t.width, t.height, t.texel_bits@))
            && t.texel_bits@.len() == 3 * t.width * t.height,
{
    decode_hdr_bytes(data)
}

} // verus!
