//! Golden images: tightly packed BGRA8 images compared channel by channel with a tolerance,
//! and stored as RGBA8 PNG files.
use std::fmt;
use vstd::prelude::*;

use crate::text::{decimal, decimal_string};

verus! {

/// A decoded golden image: tightly packed BGRA8.
#[derive(Clone, PartialEq, Eq)]
pub struct GoldenImage {
    /// Width in pixels.
    pub width: u32,
    /// Height in pixels.
    pub height: u32,
    /// `width * height * 4` bytes, B,G,R,A per pixel, rows top to bottom.
    pub bgra: Vec<u8>,
}

impl fmt::Debug for GoldenImage {
    /// Writes [`GoldenImage::describe`].
    #[verifier::external_body]
    fn fmt(&self, f: &mut fmt::Formatter<'_>) -> fmt::Result {
        f.write_str(self.describe().as_str())
    }
}

impl GoldenImage {
    /// How the image is shown in messages: only its size, since the pixels are too many to be
    /// useful there.
    pub fn describe(&self) -> (r: String)
        ensures
            r@ == "GoldenImage("@ + decimal(self.width as nat) + "x"@ + decimal(self.height as nat) + ")"@,
    {
        String::from_str("GoldenImage(").concat(decimal_string(self.width as u64).as_str()).concat("x").concat(
            decimal_string(self.height as u64).as_str(),
        ).concat(")")
    }
}

/// Why two images differ.
#[derive(Debug, Clone, Copy, PartialEq, Eq)]
pub enum Mismatch {
    /// Dimensions differ.
    Size {
        /// Expected `(width, height)`.
        expected: (u32, u32),
        /// Actual `(width, height)`.
        actual: (u32, u32),
    },
    /// At least one channel differs by more than the tolerance.
    Pixels {
        /// Number of pixels outside tolerance.
        count: usize,
        /// First offending pixel `(x, y)`.
        first: (u32, u32),
        /// Expected BGRA at `first`.
        expected: [u8; 4],
        /// Actual BGRA at `first`.
        actual: [u8; 4],
        /// Largest per-channel difference seen.
        max_diff: u8,
    },
}

/// `|x - y|`.
pub open spec fn abs_diff(x: u8, y: u8) -> u8 {
    if x >= y { (x - y) as u8 } else { (y - x) as u8 }
}

/// The larger of two bytes.
pub open spec fn max_u8(x: u8, y: u8) -> u8 {
    if x >= y { x } else { y }
}

/// The largest channel difference of pixel `i`.
pub open spec fn pixel_diff(e: Seq<u8>, a: Seq<u8>, i: int) -> u8 {
    max_u8(
        max_u8(abs_diff(e[4 * i], a[4 * i]), abs_diff(e[4 * i + 1], a[4 * i + 1])),
        max_u8(abs_diff(e[4 * i + 2], a[4 * i + 2]), abs_diff(e[4 * i + 3], a[4 * i + 3])),
    )
}

/// Number of pixels among the first `n` outside `tol`.
pub open spec fn bad_count(e: Seq<u8>, a: Seq<u8>, tol: u8, n: int) -> nat
    decreases n,
{
    if n <= 0 {
        0
    } else {
        bad_count(e, a, tol, n - 1) + if pixel_diff(e, a, n - 1) > tol { 1nat } else { 0nat }
    }
}

/// The largest difference among the first `n` pixels outside `tol` (0 if none).
pub open spec fn bad_max(e: Seq<u8>, a: Seq<u8>, tol: u8, n: int) -> u8
    decreases n,
{
    if n <= 0 {
        0
    } else if pixel_diff(e, a, n - 1) > tol {
        max_u8(bad_max(e, a, tol, n - 1), pixel_diff(e, a, n - 1))
    } else {
        bad_max(e, a, tol, n - 1)
    }
}

/// The first of the first `n` pixels outside `tol`.
pub open spec fn first_bad(e: Seq<u8>, a: Seq<u8>, tol: u8, n: int) -> Option<int>
    decreases n,
{
    if n <= 0 {
        None
    } else {
        match first_bad(e, a, tol, n - 1) {
            Some(i) => Some(i),
            None => if pixel_diff(e, a, n - 1) > tol { Some(n - 1) } else { None },
        }
    }
}

/// The four bytes of pixel `i`.
pub open spec fn pixel_at(s: Seq<u8>, i: int) -> Seq<u8> {
    s.subrange(4 * i, 4 * i + 4)
}

fn diff(x: u8, y: u8) -> (r: u8)
    ensures
        r == abs_diff(x, y),
{
    if x >= y { x - y } else { y - x }
}

fn max2(x: u8, y: u8) -> (r: u8)
    ensures
        r == max_u8(x, y),
{
    if x >= y { x } else { y }
}

/// Compares two BGRA8 images channel by channel: equal sizes and every channel of every pixel
/// within `tolerance`. A trailing partial pixel is not compared.
pub fn compare(expected: &GoldenImage, actual: &GoldenImage, tolerance: u8) -> (r: Result<(), Mismatch>)
    ensures
        (expected.width != actual.width || expected.height != actual.height || expected.bgra@.len()
            != actual.bgra@.len()) ==> r == Err::<(), Mismatch>(
            Mismatch::Size {
                expected: (expected.width, expected.height),
                actual: (actual.width, actual.height),
            },
        ),
        (expected.width == actual.width && expected.height == actual.height && expected.bgra@.len()
            == actual.bgra@.len()) ==> {
            let e = expected.bgra@;
            let a = actual.bgra@;
            let n = e.len() / 4;
            let w: int = if expected.width == 0 { 1 } else { expected.width as int };
            match first_bad(e, a, tolerance, n as int) {
                None => r == Ok::<(), Mismatch>(()),
                Some(i) => r matches Err(Mismatch::Pixels { count, first, expected: pe, actual: pa, max_diff })
                    && count == bad_count(e, a, tolerance, n as int)
                    && first == ((i % w) as u32, (i / w) as u32)
                    && pe@ == pixel_at(e, i) && pa@ == pixel_at(a, i)
                    && max_diff == bad_max(e, a, tolerance, n as int),
            }
        },
{
    if expected.width != actual.width || expected.height != actual.height || expected.bgra.len() != actual.bgra.len() {
        return Err(Mismatch::Size {
            expected: (expected.width, expected.height),
            actual: (actual.width, actual.height),
        });
    }
    let e = &expected.bgra;
    let a = &actual.bgra;
    let elen = e.len();
    let n = elen / 4;
    let mut count: usize = 0;
    let mut max_diff: u8 = 0;
    let mut first: Option<usize> = None;
    let mut i: usize = 0;
    while i < n
        invariant
            n == e@.len() / 4,
            elen == e@.len(),
            e@.len() == a@.len(),
            i <= n,
            count == bad_count(e@, a@, tolerance, i as int),
            count <= i,
            max_diff == bad_max(e@, a@, tolerance, i as int),
            match first {
                Some(f) => first_bad(e@, a@, tolerance, i as int) == Some(f as int),
                None => first_bad(e@, a@, tolerance, i as int) is None,
            },
        decreases n - i,
    {
        proof {
            assert(4 * i + 4 <= e@.len()) by (nonlinear_arith)
                requires
                    i < n,
                    n == e@.len() / 4,
            ;
        }
        let o = 4 * i;
        let d = max2(max2(diff(e[o], a[o]), diff(e[o + 1], a[o + 1])), max2(diff(e[o + 2], a[o + 2]), diff(e[o + 3], a[o + 3])));
        if d > tolerance {
            count = count + 1;
            max_diff = max2(max_diff, d);
            if first.is_none() {
                first = Some(i);
            }
        }
        i = i + 1;
    }
    match first {
        None => Ok(()),
        Some(f) => {
            let w: usize = if expected.width == 0 { 1 } else { expected.width as usize };
            proof {
                assert(first_bad(e@, a@, tolerance, n as int) == Some(f as int));
                lemma_first_bad_below(e@, a@, tolerance, n as int);
                assert(4 * f + 4 <= e@.len()) by (nonlinear_arith)
                    requires
                        f < n,
                        n == e@.len() / 4,
                ;
            }
            let o = 4 * f;
            let pe: [u8; 4] = [e[o], e[o + 1], e[o + 2], e[o + 3]];
            let pa: [u8; 4] = [a[o], a[o + 1], a[o + 2], a[o + 3]];
            proof {
                assert(pe@ =~= pixel_at(e@, f as int));
                assert(pa@ =~= pixel_at(a@, f as int));
            }
            Err(Mismatch::Pixels {
                count,
                first: ((f % w) as u32, #[verifier::truncate] ((f / w) as u32)),
                expected: pe,
                actual: pa,
                max_diff,
            })
        },
    }
}

proof fn lemma_first_bad_below(e: Seq<u8>, a: Seq<u8>, tol: u8, n: int)
    ensures
        first_bad(e, a, tol, n) matches Some(i) ==> 0 <= i < n,
    decreases n,
{
    if n > 0 {
        lemma_first_bad_below(e, a, tol, n - 1);
    }
}

// ---------------------------------------------------------------------------------------------
// PNG files.
// ---------------------------------------------------------------------------------------------

/// The samples of a decoded PNG: RGB8 (three per pixel) or RGBA8 (four per pixel).
pub struct PngRaster {
    /// Width in pixels.
    pub width: u32,
    /// Height in pixels.
    pub height: u32,
    /// Three samples per pixel (RGB) rather than four (RGBA).
    pub rgb: bool,
    /// The samples, rows top to bottom.
    pub samples: Vec<u8>,
}

/// Why a PNG could not be read or written; the texts are the png crate's messages.
#[derive(Debug, Clone, PartialEq, Eq)]
pub enum PngFailure {
    /// The header could not be read.
    Header(String),
    /// The image is too large to decode into memory.
    TooLarge,
    /// The image data could not be decoded.
    Decode(String),
    /// A colour type other than RGB or RGBA (the name of the colour type).
    Unsupported(String),
    /// The header could not be written.
    WriteHeader(String),
    /// The image data could not be written.
    WriteData(String),
    /// The file could not be finished.
    Finish(String),
}

/// What the png crate decodes from file bytes `data` with palettes and low bit depths expanded
/// and 16-bit samples stripped to 8: width, height, whether the samples are RGB (rather than
/// RGBA) and the samples, when it decodes to RGB8 or RGBA8.
pub uninterp spec fn png_raster(data: Seq<u8>) -> Option<(u32, u32, bool, Seq<u8>)>;

/// Decodes file bytes `data` with `png::Decoder` (transformations `EXPAND | STRIP_16`), reading
/// the first frame: `Ok` exactly when `png_raster(data)` gives a raster, which is then what is
/// returned. Other colour types are `Unsupported`; which error comes otherwise is not stated.
#[verifier::external_body]
fn read_png(data: &[u8]) -> (r: Result<PngRaster, PngFailure>)
    ensures
        match r {
            Ok(p) => png_raster(data@) == Some((p.width, p.height, p.rgb, p.samples@)),
            Err(_) => png_raster(data@) is None,
        },
{
    let mut d = png::Decoder::new(std::io::Cursor::new(data));
    d.set_transformations(png::Transformations::EXPAND | png::Transformations::STRIP_16);
    let mut reader = d.read_info().map_err(|e| PngFailure::Header(e.to_string()))?;
    let mut buf = vec![0; reader.output_buffer_size().ok_or(PngFailure::TooLarge)?];
    let info = reader.next_frame(&mut buf).map_err(|e| PngFailure::Decode(e.to_string()))?;
    buf.truncate(info.buffer_size());
    let rgb = match info.color_type {
        png::ColorType::Rgba => false,
        png::ColorType::Rgb => true,
        other => return Err(PngFailure::Unsupported(format!("{other:?}"))),
    };
    Ok(PngRaster { width: info.width, height: info.height, rgb, samples: buf })
}

/// What the png crate writes for an 8-bit RGBA image of `width` × `height` with samples `rgba`.
pub uninterp spec fn png_rgba8(width: u32, height: u32, rgba: Seq<u8>) -> Option<Seq<u8>>;

/// Encodes an 8-bit RGBA image with `png::Encoder` into memory: `Ok` exactly when
/// `png_rgba8` gives bytes (the png crate refuses, among others, sample counts that do not
/// match the size), which are then what is returned. The encoder multiplies the row length by
/// the height in `usize` without a check, so an image whose sample count does not fit in `usize`
/// is left out: the png crate would overflow there.
#[verifier::external_body]
pub(crate) fn write_png(width: u32, height: u32, rgba: &[u8]) -> (r: Result<Vec<u8>, PngFailure>)
    requires
        width as int * height as int * 4 <= usize::MAX,
    ensures
        match r {
            Ok(v) => png_rgba8(width, height, rgba@) == Some(v@),
            Err(_) => png_rgba8(width, height, rgba@) is None,
        },
{
    let mut out = Vec::new();
    let mut enc = png::Encoder::new(&mut out, width, height);
    enc.set_color(png::ColorType::Rgba);
    enc.set_depth(png::BitDepth::Eight);
    let mut w = enc.write_header().map_err(|e| PngFailure::WriteHeader(e.to_string()))?;
    w.write_image_data(rgba).map_err(|e| PngFailure::WriteData(e.to_string()))?;
    w.finish().map_err(|e| PngFailure::Finish(e.to_string()))?;
    Ok(out)
}

/// Four-sample pixels with the first and third sample swapped (RGBA ↔ BGRA); a partial pixel at
/// the end is dropped.
pub open spec fn swap_red_blue(s: Seq<u8>) -> Seq<u8> {
    Seq::new(
        (s.len() / 4) * 4,
        |i: int|
            {
                let p = i / 4;
                let k = i % 4;
                if k == 0 {
                    s[4 * p + 2]
                } else if k == 1 {
                    s[4 * p + 1]
                } else if k == 2 {
                    s[4 * p]
                } else {
                    s[4 * p + 3]
                }
            },
    )
}

/// Three-sample RGB pixels as opaque BGRA; a partial pixel at the end is dropped.
pub open spec fn bgra_from_rgb(s: Seq<u8>) -> Seq<u8> {
    Seq::new(
        (s.len() / 3) * 4,
        |i: int|
            {
                let p = i / 4;
                let k = i % 4;
                if k == 0 {
                    s[3 * p + 2]
                } else if k == 1 {
                    s[3 * p + 1]
                } else if k == 2 {
                    s[3 * p]
                } else {
                    255u8
                }
            },
    )
}

/// The BGRA8 image of a decoded raster.
pub open spec fn bgra_of_raster(rgb: bool, samples: Seq<u8>) -> Seq<u8> {
    if rgb {
        bgra_from_rgb(samples)
    } else {
        swap_red_blue(samples)
    }
}

fn push_pixel(out: &mut Vec<u8>, b: u8, g: u8, r: u8, a: u8)
    ensures
        final(out)@ == old(out)@ + seq![b, g, r, a],
{
    out.push(b);
    out.push(g);
    out.push(r);
    out.push(a);
    assert(out@ =~= old(out)@ + seq![b, g, r, a]);
}

fn swap_pixels(s: &[u8]) -> (r: Vec<u8>)
    ensures
        r@ == swap_red_blue(s@),
{
    let len = s.len();
    let n = len / 4;
    let mut out: Vec<u8> = Vec::new();
    let mut p: usize = 0;
    while p < n
        invariant
            len == s@.len(),
            n == len / 4,
            p <= n,
            out@ =~= swap_red_blue(s@).subrange(0, 4 * p),
        decreases n - p,
    {
        assert(4 * p + 4 <= len);
        let ghost before = out@;
        push_pixel(&mut out, s[4 * p + 2], s[4 * p + 1], s[4 * p], s[4 * p + 3]);
        proof {
            let t = swap_red_blue(s@);
            assert forall|i: int| 4 * p <= i < 4 * p + 4 implies #[trigger] t[i] == out@[i] by {
                assert(i / 4 == p);
            }
            assert(out@ =~= t.subrange(0, 4 * p + 4));
        }
        p = p + 1;
    }
    assert(swap_red_blue(s@).subrange(0, 4 * n) =~= swap_red_blue(s@));
    out
}

fn rgb_pixels(s: &[u8]) -> (r: Vec<u8>)
    ensures
        r@ == bgra_from_rgb(s@),
{
    let len = s.len();
    let n = len / 3;
    let mut out: Vec<u8> = Vec::new();
    let mut p: usize = 0;
    while p < n
        invariant
            len == s@.len(),
            n == len / 3,
            p <= n,
            out@ =~= bgra_from_rgb(s@).subrange(0, 4 * p),
        decreases n - p,
    {
        assert(3 * p + 3 <= len);
        push_pixel(&mut out, s[3 * p + 2], s[3 * p + 1], s[3 * p], 255);
        proof {
            let t = bgra_from_rgb(s@);
            assert forall|i: int| 4 * p <= i < 4 * p + 4 implies #[trigger] t[i] == out@[i] by {
                assert(i / 4 == p);
            }
            assert(out@ =~= t.subrange(0, 4 * p + 4));
        }
        p = p + 1;
    }
    assert(bgra_from_rgb(s@).subrange(0, 4 * n) =~= bgra_from_rgb(s@));
    out
}

/// Decodes PNG file bytes (RGB8 or RGBA8 after expansion) into a BGRA8 image.
pub fn decode_png(data: &[u8]) -> (r: Result<GoldenImage, PngFailure>)
    ensures
        match r {
            Ok(img) => match png_raster(data@) {
                Some((w, h, rgb, samples)) => img.width == w && img.height == h && img.bgra@
                    == bgra_of_raster(rgb, samples),
                None => false,
            },
            Err(_) => png_raster(data@) is None,
        },
{
    match read_png(data) {
        Err(e) => Err(e),
        Ok(raster) => {
            let bgra = if raster.rgb {
                rgb_pixels(raster.samples.as_slice())
            } else {
                swap_pixels(raster.samples.as_slice())
            };
            Ok(GoldenImage { width: raster.width, height: raster.height, bgra })
        },
    }
}

/// Encodes a BGRA8 image as the bytes of an RGBA8 PNG file. Its sample count
/// (width × height × 4) must fit in `usize`: the encoder overflows beyond that.
pub fn encode_png(image: &GoldenImage) -> (r: Result<Vec<u8>, PngFailure>)
    requires
        image.width as int * image.height as int * 4 <= usize::MAX,
    ensures
        match r {
            Ok(v) => png_rgba8(image.width, image.height, swap_red_blue(image.bgra@)) == Some(v@),
            Err(_) => png_rgba8(image.width, image.height, swap_red_blue(image.bgra@)) is None,
        },
{
    let rgba = swap_pixels(image.bgra.as_slice());
    write_png(image.width, image.height, rgba.as_slice())
}

/// Swapping red and blue twice gives back the pixels: an image stored as RGBA and read back
/// as BGRA keeps its samples.
pub proof fn lemma_swap_red_blue_twice(s: Seq<u8>)
    requires
        s.len() % 4 == 0,
    ensures
        swap_red_blue(swap_red_blue(s)) == s,
{
    let t = swap_red_blue(s);
    assert(t.len() == s.len());
    assert forall|i: int| 0 <= i < s.len() implies #[trigger] swap_red_blue(t)[i] == s[i] by {
        let p = i / 4;
        assert(4 * p + 3 < s.len());
        assert((4 * p) / 4 == p && (4 * p + 1) / 4 == p && (4 * p + 2) / 4 == p && (4 * p + 3) / 4 == p);
        assert((4 * p) % 4 == 0 && (4 * p + 1) % 4 == 1 && (4 * p + 2) % 4 == 2 && (4 * p + 3) % 4 == 3);
    }
    assert(swap_red_blue(t) =~= s);
}

} // verus!
