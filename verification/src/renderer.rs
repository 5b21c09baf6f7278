use std::collections::hash_map::DefaultHasher;
use std::hash::Hasher;
use vstd::prelude::*;
use vstd::std_specs::hash::DefaultHasherAdditionalSpecFns;

verus! {

/// Byte offset of pixel `(x, y)` in a row-major RGB buffer `width` pixels wide.
pub open spec fn pixel_offset(width: int, x: int, y: int) -> int {
    (y * width + x) * 3
}

/// `buf` with the three channels of `color` written at byte offset `i`.
pub open spec fn with_pixel(buf: Seq<u8>, i: int, color: [u8; 3]) -> Seq<u8> {
    buf.update(i, color[0]).update(i + 1, color[1]).update(i + 2, color[2])
}

/// The three channels of pixel `(x, y)` of `buf`.
pub open spec fn pixel_at(buf: Seq<u8>, width: int, x: int, y: int) -> Seq<u8> {
    buf.subrange(pixel_offset(width, x, y), pixel_offset(width, x, y) + 3)
}

/// The RGB bytes of a row-major list of pixels, one after another.
pub open spec fn flatten_pixels(px: Seq<[u8; 3]>) -> Seq<u8> {
    Seq::new(px.len() * 3, |j: int| px[j / 3][j % 3])
}

/// The RGBA bytes of an RGB buffer: each pixel keeps its three channels and
/// gains an opaque alpha channel.
pub open spec fn rgba_of(buf: Seq<u8>) -> Seq<u8> {
    Seq::new(buf.len() / 3 * 4, |j: int| if j % 4 == 3 { 255u8 } else { buf[(j / 4) * 3 + j % 4] })
}

/// The `n` low-order bytes of `v`, least significant first.
pub open spec fn le_bytes(v: nat, n: nat) -> Seq<u8>
    decreases n,
{
    if n == 0 {
        Seq::empty()
    } else {
        seq![(v % 256) as u8] + le_bytes(v / 256, (n - 1) as nat)
    }
}

/// `p` is the in-memory form of the word `v` on some target: as many bytes as
/// a `usize` has, least significant first on a little-endian target, most
/// significant first on a big-endian one.
pub open spec fn native_word_bytes(p: Seq<u8>, v: nat) -> bool {
    &&& p.len() * 8 == usize::BITS
    &&& (p == le_bytes(v, p.len()) || p == le_bytes(v, p.len()).reverse())
}

/// The writes by which the buffer is hashed: the in-memory form `prefix` of
/// its length, then its contents.
pub open spec fn hashed_writes(prefix: Seq<u8>, buf: Seq<u8>) -> Seq<Seq<u8>> {
    seq![prefix, buf]
}

/// Trusted: `usize::to_ne_bytes`, copied into a `Vec`. Its documentation gives
/// the memory representation of the word in the target's native byte order;
/// every target Rust supports is little- or big-endian. Which of the two is
/// not stated, since it depends on the machine.
#[verifier::external_body]
fn native_len_bytes(n: usize) -> (b: Vec<u8>)
    ensures
        native_word_bytes(b@, n as nat),
{
    n.to_ne_bytes().to_vec()
}

/// Pixel `(x, y)` of a `width` by `height` image lies inside its RGB buffer.
pub proof fn lemma_pixel_in_bounds(width: int, height: int, x: int, y: int)
    requires
        0 <= x < width,
        0 <= y < height,
    ensures
        0 <= y * width + x < width * height,
        0 <= pixel_offset(width, x, y),
        pixel_offset(width, x, y) + 3 <= width * height * 3,
{
    assert(y * width <= (height - 1) * width) by (nonlinear_arith)
        requires
            0 <= y < height,
            0 < width,
    ;
    assert((height - 1) * width == width * height - width) by (nonlinear_arith);
    assert(0 <= y * width) by (nonlinear_arith)
        requires
            0 <= y,
            0 < width,
    ;
}

/// Writing a pixel and reading it back gives the color written, and every
/// other pixel reads as before.
pub proof fn lemma_write_then_read(
    buf: Seq<u8>,
    width: int,
    height: int,
    x: int,
    y: int,
    color: [u8; 3],
    x2: int,
    y2: int,
)
    requires
        buf.len() == width * height * 3,
        0 <= x < width,
        0 <= y < height,
        0 <= x2 < width,
        0 <= y2 < height,
    ensures
        pixel_at(with_pixel(buf, pixel_offset(width, x, y), color), width, x, y) == color@,
        (x2 != x || y2 != y) ==> pixel_at(
            with_pixel(buf, pixel_offset(width, x, y), color),
            width,
            x2,
            y2,
        ) == pixel_at(buf, width, x2, y2),
{
    lemma_pixel_in_bounds(width, height, x, y);
    lemma_pixel_in_bounds(width, height, x2, y2);
    let after = with_pixel(buf, pixel_offset(width, x, y), color);
    assert(pixel_at(after, width, x, y) =~= color@);
    if x2 != x || y2 != y {
        assert(y2 * width + x2 != y * width + x) by (nonlinear_arith)
            requires
                0 <= x < width,
                0 <= x2 < width,
                x2 != x || y2 != y,
        {
            if y2 == y {
            } else if y2 < y {
                assert(y2 * width + width <= y * width);
            } else {
                assert(y * width + width <= y2 * width);
            }
        }
        assert(pixel_at(after, width, x2, y2) =~= pixel_at(buf, width, x2, y2));
    }
}

/// Storing a row-major list of pixels puts pixel `y * width + x` of the list at
/// column `x` of row `y`.
pub proof fn lemma_stored_pixel(px: Seq<[u8; 3]>, width: int, height: int, x: int, y: int)
    requires
        px.len() == width * height,
        0 <= x < width,
        0 <= y < height,
    ensures
        pixel_at(flatten_pixels(px), width, x, y) == px[y * width + x]@,
{
    lemma_pixel_in_bounds(width, height, x, y);
    let i = y * width + x;
    let flat = flatten_pixels(px);
    assert forall|c: int| 0 <= c < 3 implies #[trigger] pixel_at(flat, width, x, y)[c] == px[i]@[c] by {
        assert((3 * i + c) / 3 == i);
        assert((3 * i + c) % 3 == c);
    }
    assert(pixel_at(flat, width, x, y) =~= px[i]@);
}

/// The RGBA form of a buffer of whole pixels keeps every channel byte, four
/// bytes for every three, and makes every pixel opaque.
pub proof fn lemma_rgba_keeps_channels(buf: Seq<u8>)
    requires
        buf.len() % 3 == 0,
    ensures
        rgba_of(buf).len() == buf.len() / 3 * 4,
        forall|k: int| 0 <= k < buf.len() ==> #[trigger] rgba_of(buf)[4 * (k / 3) + k % 3] == buf[k],
        forall|p: int| 0 <= p < buf.len() / 3 ==> #[trigger] rgba_of(buf)[4 * p + 3] == 255u8,
{
    assert forall|k: int| 0 <= k < buf.len() implies #[trigger] rgba_of(buf)[4 * (k / 3) + k % 3]
        == buf[k] by {
        let j = 4 * (k / 3) + k % 3;
        assert(j / 4 == k / 3);
        assert(j % 4 == k % 3);
        assert(j < buf.len() / 3 * 4);
    }
    assert forall|p: int| 0 <= p < buf.len() / 3 implies #[trigger] rgba_of(buf)[4 * p + 3] == 255u8 by {
        assert((4 * p + 3) % 4 == 3);
    }
}

/// The image buffer of the renderer and the settings by which it samples.
///
/// The buffer holds `width * height` pixels, row by row, three bytes each.
pub struct Renderer {
    img_buffer: Vec<u8>,
    width: usize,
    height: usize,
    samples: usize,
    adaptive: bool,
    sample_chunk_size: usize,
}

impl View for Renderer {
    type V = Seq<u8>;

    closed spec fn view(&self) -> Seq<u8> {
        self.img_buffer@
    }
}

impl Renderer {
    /// The buffer holds exactly `width * height` RGB pixels; every renderer
    /// keeps this.
    pub open spec fn well_formed(self) -> bool {
        self@.len() == self.spec_width() * self.spec_height() * 3
    }

    #[verifier::type_invariant]
    spec fn buffer_fits(self) -> bool {
        self.img_buffer@.len() == self.width * self.height * 3
    }

    /// Width of the image in pixels.
    pub closed spec fn spec_width(self) -> nat {
        self.width as nat
    }

    /// Height of the image in pixels.
    pub closed spec fn spec_height(self) -> nat {
        self.height as nat
    }

    /// Samples cast per pixel at most.
    pub closed spec fn spec_samples(self) -> nat {
        self.samples as nat
    }

    /// Whether sampling stops early once a pixel has converged.
    pub closed spec fn spec_adaptive(self) -> bool {
        self.adaptive
    }

    /// Samples between two convergence checks.
    pub closed spec fn spec_sample_chunk_size(self) -> nat {
        self.sample_chunk_size as nat
    }

    /// A black `width` by `height` image, sampled `samples` times per pixel
    /// (20 when not given), not adaptive, checked for convergence every 32
    /// samples when made adaptive.
    pub fn new(width: usize, height: usize, samples: Option<usize>) -> (r: Renderer)
        requires
            width * height * 3 <= usize::MAX,
        ensures
            r.well_formed(),
            r.spec_width() == width,
            r.spec_height() == height,
            r.spec_samples() == match samples {
                Some(s) => s,
                None => 20,
            },
            !r.spec_adaptive(),
            r.spec_sample_chunk_size() == 32,
            r@ == Seq::new((width * height * 3) as nat, |i: int| 0u8),
    {
        assert(width * height * 3 == (width * height) * 3);
        let img_buffer: Vec<u8> = vec![0u8; width * height * 3];
        let r = Renderer {
            img_buffer,
            width,
            height,
            samples: match samples {
                Some(s) => s,
                None => 20,
            },
            adaptive: false,
            sample_chunk_size: 32,
        };
        assert(r@ =~= Seq::new((width * height * 3) as nat, |i: int| 0u8));
        r
    }

    /// Turns the early stop of converged pixels on or off.
    pub fn set_adaptive(&mut self, enabled: bool)
        ensures
            final(self).well_formed(),
            final(self).spec_adaptive() == enabled,
            final(self)@ == old(self)@,
            final(self).spec_width() == old(self).spec_width(),
            final(self).spec_height() == old(self).spec_height(),
            final(self).spec_samples() == old(self).spec_samples(),
            final(self).spec_sample_chunk_size() == old(self).spec_sample_chunk_size(),
    {
        proof {
            use_type_invariant(&*self);
        }
        self.adaptive = enabled;
    }

    /// Width of the image in pixels.
    pub fn width(&self) -> (w: usize)
        ensures
            w == self.spec_width(),
    {
        self.width
    }

    /// Height of the image in pixels.
    pub fn height(&self) -> (h: usize)
        ensures
            h == self.spec_height(),
    {
        self.height
    }

    /// Samples cast per pixel at most.
    pub fn samples(&self) -> (s: usize)
        ensures
            s == self.spec_samples(),
    {
        self.samples
    }

    /// Whether sampling stops early once a pixel has converged.
    pub fn adaptive(&self) -> (a: bool)
        ensures
            a == self.spec_adaptive(),
    {
        self.adaptive
    }

    /// Samples between two convergence checks.
    pub fn sample_chunk_size(&self) -> (c: usize)
        ensures
            c == self.spec_sample_chunk_size(),
    {
        self.sample_chunk_size
    }

    /// The RGB buffer, row by row.
    pub fn buffer(&self) -> (b: &Vec<u8>)
        ensures
            b@ == self@,
            b@.len() == self.spec_width() * self.spec_height() * 3,
    {
        proof {
            use_type_invariant(self);
        }
        &self.img_buffer
    }

    /// Writes the color of pixel `(x, y)`.
    pub fn write_pixel(&mut self, x: usize, y: usize, color: [u8; 3])
        requires
            x < old(self).spec_width(),
            y < old(self).spec_height(),
        ensures
            final(self).well_formed(),
            final(self)@ == with_pixel(
                old(self)@,
                pixel_offset(old(self).spec_width() as int, x as int, y as int),
                color,
            ),
            final(self).spec_width() == old(self).spec_width(),
            final(self).spec_height() == old(self).spec_height(),
            final(self).spec_samples() == old(self).spec_samples(),
            final(self).spec_adaptive() == old(self).spec_adaptive(),
            final(self).spec_sample_chunk_size() == old(self).spec_sample_chunk_size(),
    {
        let mut taken = Renderer {
            img_buffer: Vec::new(),
            width: 0,
            height: 0,
            samples: 0,
            adaptive: false,
            sample_chunk_size: 0,
        };
        std::mem::swap(self, &mut taken);
        proof {
            use_type_invariant(&taken);
        }
        let Renderer { mut img_buffer, width, height, samples, adaptive, sample_chunk_size } =
            taken;
        proof {
            lemma_pixel_in_bounds(width as int, height as int, x as int, y as int);
            assert((y * width + x) * 3 + 3 <= img_buffer.len());
        }
        let index = (y * width + x) * 3;
        img_buffer.set(index, color[0]);
        img_buffer.set(index + 1, color[1]);
        img_buffer.set(index + 2, color[2]);
        *self = Renderer { img_buffer, width, height, samples, adaptive, sample_chunk_size };
    }

    /// Stores a row-major list of pixel colors, as a finished render pass
    /// does: pixel `i` goes to column `i % width` of row `i / width`.
    pub fn store_pixels(&mut self, pixels: &Vec<[u8; 3]>)
        requires
            pixels.len() == old(self).spec_width() * old(self).spec_height(),
        ensures
            final(self).well_formed(),
            final(self)@ == flatten_pixels(pixels@),
            final(self).spec_width() == old(self).spec_width(),
            final(self).spec_height() == old(self).spec_height(),
            final(self).spec_samples() == old(self).spec_samples(),
            final(self).spec_adaptive() == old(self).spec_adaptive(),
            final(self).spec_sample_chunk_size() == old(self).spec_sample_chunk_size(),
    {
        proof {
            use_type_invariant(&*self);
        }
        let width = self.width;
        let height = self.height;
        let n = pixels.len();
        let ghost flat = flatten_pixels(pixels@);
        let mut i: usize = 0;
        while i < n
            invariant
                self.well_formed(),
                self.spec_width() == width,
                self.spec_height() == height,
                self.spec_samples() == old(self).spec_samples(),
                self.spec_adaptive() == old(self).spec_adaptive(),
                self.spec_sample_chunk_size() == old(self).spec_sample_chunk_size(),
                n == pixels.len(),
                n == width * height,
                flat == flatten_pixels(pixels@),
                i <= n,
                forall|j: int| 0 <= j < 3 * i ==> #[trigger] self@[j] == flat[j],
            decreases n - i,
        {
            let x = i % width;
            let y = i / width;
            proof {
                assert(width > 0) by (nonlinear_arith)
                    requires
                        i < width * height,
                        0 <= i,
                ;
                vstd::arithmetic::div_mod::lemma_fundamental_div_mod(i as int, width as int);
                assert(y < height) by (nonlinear_arith)
                    requires
                        i < width * height,
                        y == i / width,
                        width > 0,
                ;
                assert(y * width + x == i) by (nonlinear_arith)
                    requires
                        i == width * (i / width) + i % width,
                        y == i / width,
                        x == i % width,
                ;
            }
            let ghost prev = self@;
            self.write_pixel(x, y, pixels[i]);
            proof {
                assert forall|j: int| 0 <= j < 3 * (i + 1) implies #[trigger] self@[j] == flat[j] by {
                    if j < 3 * i {
                        assert(self@[j] == prev[j]);
                    } else {
                        assert(j / 3 == i);
                    }
                }
            }
            i = i + 1;
        }
        assert(self@ =~= flat);
    }

    /// The image as RGBA bytes, every pixel opaque; the buffer is left as it is.
    pub fn take_buffer_rgba(&mut self) -> (rgba: Vec<u8>)
        ensures
            rgba@ == rgba_of(old(self)@),
            final(self)@ == old(self)@,
            final(self).well_formed(),
            final(self).spec_width() == old(self).spec_width(),
            final(self).spec_height() == old(self).spec_height(),
            final(self).spec_samples() == old(self).spec_samples(),
            final(self).spec_adaptive() == old(self).spec_adaptive(),
            final(self).spec_sample_chunk_size() == old(self).spec_sample_chunk_size(),
    {
        proof {
            use_type_invariant(&*self);
        }
        let len = self.img_buffer.len();
        let pixels = len / 3;
        let ghost target = rgba_of(self@);
        let mut rgba: Vec<u8> = Vec::new();
        let mut k: usize = 0;
        while k < pixels
            invariant
                len == self@.len(),
                len % 3 == 0,
                pixels == len / 3,
                target == rgba_of(self@),
                k <= pixels,
                rgba@.len() == 4 * k,
                forall|j: int| 0 <= j < 4 * k ==> #[trigger] rgba@[j] == target[j],
            decreases pixels - k,
        {
            let base = k * 3;
            rgba.push(self.img_buffer[base]);
            rgba.push(self.img_buffer[base + 1]);
            rgba.push(self.img_buffer[base + 2]);
            rgba.push(255u8);
            proof {
                assert forall|j: int| 0 <= j < 4 * (k + 1) implies #[trigger] rgba@[j] == target[j] by {
                    if j >= 4 * k {
                        assert(j / 4 == k);
                    }
                }
            }
            k = k + 1;
        }
        assert(rgba@ =~= target);
        rgba
    }

    /// A 64-bit hash of the image, as the standard library's default hasher
    /// computes it over the buffer as a `Vec<u8>`: the length as a native
    /// word, then the bytes.
    pub fn hash_buf(&self) -> (h: u64)
        ensures
            exists|prefix: Seq<u8>|
                native_word_bytes(prefix, self@.len()) && h == DefaultHasher::spec_finish(
                    #[trigger] hashed_writes(prefix, self@),
                ),
    {
        proof {
            use_type_invariant(self);
        }
        let mut hasher = DefaultHasher::new();
        let prefix = native_len_bytes(self.img_buffer.len());
        hasher.write(prefix.as_slice());
        hasher.write(self.img_buffer.as_slice());
        let h = hasher.finish();
        assert(hasher@ =~= hashed_writes(prefix@, self@));
        h
    }

    /// Whether the sampling of a pixel checks for convergence after `used`
    /// samples, `n_valid` of them usable: only when adaptive, every
    /// `sample_chunk_size` samples, and once there are two usable samples.
    pub fn convergence_check_due(&self, used: usize, n_valid: usize) -> (due: bool)
        ensures
            due == (self.spec_adaptive() && self.spec_sample_chunk_size() > 0 && used
                as nat % self.spec_sample_chunk_size() == 0 && n_valid > 1),
    {
        self.adaptive && self.sample_chunk_size > 0 && used % self.sample_chunk_size == 0
            && n_valid > 1
    }
}

} // verus!
