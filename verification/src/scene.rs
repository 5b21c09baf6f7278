use vstd::prelude::*;

verus! {

/// The bundled high-dynamic-range sky maps a scene can name.
#[derive(Clone, Copy, Debug, PartialEq, Eq, Structural)]
pub enum HdrSkyId {
    CitrusOrchard,
    QwantaniMoonrise,
}

/// The file that holds the sky map named by `id`.
pub open spec fn spec_hdr_path(id: HdrSkyId) -> Seq<char> {
    match id {
        HdrSkyId::CitrusOrchard => "web/res/citrus_orchard_road_puresky_4k.hdr"@,
        HdrSkyId::QwantaniMoonrise => "web/res/qwantani_moonrise_puresky_4k.hdr"@,
    }
}

impl HdrSkyId {
    /// Path of the sky map, as the scene builder loads it.
    pub fn path(&self) -> (p: &'static str)
        ensures
            p@ == spec_hdr_path(*self),
    {
        match self {
            HdrSkyId::CitrusOrchard => "web/res/citrus_orchard_road_puresky_4k.hdr",
            HdrSkyId::QwantaniMoonrise => "web/res/qwantani_moonrise_puresky_4k.hdr",
        }
    }
}

/// The gzip stream that compressing `data` at `level` gives.
pub uninterp spec fn gzipped(data: Seq<u8>, level: u32) -> Seq<u8>;

/// What reading a gzip stream to its end gives: the bytes decompressed before
/// the reader stopped, and whether it stopped at the stream's end with the
/// header and trailer checked.
pub uninterp spec fn gunzip_read(data: Seq<u8>) -> (Seq<u8>, bool);

/// Trusted: `flate2::write::GzEncoder` over a `Vec` at `Compression::new(level)`,
/// all of `data` written, then `finish`. The header is the crate's default
/// (time stamp 0, operating-system byte 255), so the stream depends on the
/// data and the level alone and is named by `gzipped`; deflate is lossless, so
/// the stream decompresses to `data`. The call succeeds: writing into a `Vec`
/// cannot fail, and the compressor's only errors are parameter errors that a
/// level of at most 9 never raises. Levels above 9 are left out: the backend
/// checks for at most 10 in debug builds.
#[verifier::external_body]
fn gzip_bytes(data: &[u8], level: u32) -> (out: Vec<u8>)
    requires
        level <= 9,
    ensures
        out@ == gzipped(data@, level),
        gunzip_read(out@) == (data@, true),
{
    let mut encoder = flate2::write::GzEncoder::new(Vec::new(), flate2::Compression::new(level));
    std::io::Write::write_all(&mut encoder, data).expect("writing into a Vec does not fail");
    encoder.finish().expect("writing into a Vec does not fail")
}

/// Trusted: `flate2::read::GzDecoder` on the bytes, read to the end with
/// `Read::read_to_end`, which keeps the bytes read before an error. The
/// decoder hands out decompressed bytes as it goes and checks the header
/// first and the trailer last, so what it yields depends on the bytes alone
/// and is named by `gunzip_read`; the flag says whether the read ended
/// without error.
#[verifier::external_body]
fn gunzip_bytes(data: &[u8]) -> (out: (Vec<u8>, bool))
    ensures
        (out.0@, out.1) == gunzip_read(data@),
{
    let mut bytes = Vec::new();
    let decoder = &mut flate2::read::GzDecoder::new(data);
    let complete = std::io::Read::read_to_end(decoder, &mut bytes).is_ok();
    (bytes, complete)
}

/// Compression level of scene files: the best that gzip offers.
pub const SCENE_GZIP_LEVEL: u32 = 9;

/// Compresses the serialized bytes of a scene into a scene file, at the best
/// compression; reading the file back gives the bytes and a checked stream.
pub fn compress_scene(data: &[u8]) -> (out: Vec<u8>)
    ensures
        out@ == gzipped(data@, SCENE_GZIP_LEVEL),
        gunzip_read(out@) == (data@, true),
{
    gzip_bytes(data, SCENE_GZIP_LEVEL)
}

/// The serialized bytes held in a scene file, as a streaming reader hands
/// them out, and whether the whole gzip stream, trailer included, checked out.
/// A file whose trailer is cut off or damaged still yields the bytes before
/// it, which is all that a reader that stops at the scene's end consumes.
pub fn decompress_scene(data: &[u8]) -> (out: (Vec<u8>, bool))
    ensures
        (out.0@, out.1) == gunzip_read(data@),
{
    gunzip_bytes(data)
}

} // verus!
