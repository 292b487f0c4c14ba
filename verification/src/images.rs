//! Captured images: every image is kept as PNG, converted with the `image`
//! crate at the clipboard boundary.
use vstd::prelude::*;

use crate::text::{push_char, push_str};

verus! {

// ---------------------------------------------------------------------------
// The `image` crate.
// ---------------------------------------------------------------------------

/// The RGBA pixels, width and height that the `image` crate decodes `bytes`
/// to, or none when it cannot decode them.
pub uninterp spec fn decoded_rgba(bytes: Seq<u8>) -> Option<(Seq<u8>, u32, u32)>;

/// The PNG file the `image` crate encodes a `width` by `height` RGBA image
/// with pixel bytes `rgba` to, or none when encoding fails.
pub uninterp spec fn png_encoding(width: u32, height: u32, rgba: Seq<u8>) -> Option<Seq<u8>>;

/// The width and height the `image` crate reads from the header of the image
/// in `bytes`, its format guessed from its first bytes.
pub uninterp spec fn image_dimensions(bytes: Seq<u8>) -> Option<(u32, u32)>;

/// Decodes any raster format the crate is built with, with
/// `image::load_from_memory`, and converts the picture to 8-bit RGBA with
/// `DynamicImage::to_rgba8`. Claims that the result is the named decoding of
/// `bytes`, and that the pixel buffer holds exactly four bytes for each of the
/// `width * height` pixels, as the buffer the decoder allocates does. The
/// error text is that of the crate's error and is left unsaid.
#[verifier::external_body]
fn decode_rgba(bytes: &[u8]) -> (r: Result<(Vec<u8>, u32, u32), String>)
    ensures
        match r {
            Ok((px, w, h)) => decoded_rgba(bytes@) == Some((px@, w, h)) && rgba_exact(
                w,
                h,
                px@.len(),
            ),
            Err(_) => decoded_rgba(bytes@) is None,
        },
{
    let rgba = image::load_from_memory(bytes).map_err(|e| e.to_string())?.to_rgba8();
    let (width, height) = rgba.dimensions();
    Ok((rgba.into_raw(), width, height))
}

/// Encodes RGBA pixels as PNG: `image::RgbaImage::from_raw`, which accepts a
/// buffer that holds at least `4 * width * height` bytes, then
/// `DynamicImage::write_to` with `ImageFormat::Png`, whose encoder asserts
/// that the buffer holds exactly that many: `requires` leaves out the buffers
/// on which it would panic. Claims that the result is the named encoding, and
/// that it begins with the PNG signature, which the `png` encoder writes
/// first into the empty buffer. The error text is that of the crate's error
/// and is left unsaid.
#[verifier::external_body]
fn encode_rgba_png(width: u32, height: u32, rgba: Vec<u8>) -> (r: Result<Vec<u8>, String>)
    requires
        rgba_exact(width, height, rgba@.len()),
    ensures
        match r {
            Ok(png) => png_encoding(width, height, rgba@) == Some(png@) && is_png(png@),
            Err(_) => png_encoding(width, height, rgba@) is None,
        },
{
    let img = image::RgbaImage::from_raw(width, height, rgba).ok_or_else(String::new)?;
    let mut buf = std::io::Cursor::new(Vec::new());
    image::DynamicImage::ImageRgba8(img).write_to(&mut buf, image::ImageFormat::Png).map_err(
        |e| e.to_string(),
    )?;
    Ok(buf.into_inner())
}

/// Reads the dimensions of the image in `bytes` with `image::ImageReader`:
/// `with_guessed_format`, then `into_dimensions`. Claims that the result is
/// the named reading.
#[verifier::external_body]
pub(crate) fn png_dimensions(bytes: &[u8]) -> (r: Option<(u32, u32)>)
    ensures
        r == image_dimensions(bytes@),
{
    image::ImageReader::new(std::io::Cursor::new(bytes)).with_guessed_format().ok().and_then(
        |reader| reader.into_dimensions().ok(),
    )
}

// ---------------------------------------------------------------------------
// Decimal numbers, for messages.
// ---------------------------------------------------------------------------

/// The decimal digits of `n`, most significant first.
pub open spec fn decimal(n: nat) -> Seq<char>
    decreases n,
{
    if n < 10 {
        seq![digit_char(n)]
    } else {
        decimal(n / 10) + seq![digit_char(n % 10)]
    }
}

/// The character of decimal digit `d`.
pub open spec fn digit_char(d: nat) -> char {
    seq!['0', '1', '2', '3', '4', '5', '6', '7', '8', '9'][d as int]
}

/// Appends the decimal digits of `n` to `s`.
pub fn push_decimal(s: &mut String, n: u64)
    ensures
        final(s)@ == old(s)@ + decimal(n as nat),
    decreases n,
{
    let digits: [char; 10] = ['0', '1', '2', '3', '4', '5', '6', '7', '8', '9'];
    assert(digits@ =~= seq!['0', '1', '2', '3', '4', '5', '6', '7', '8', '9']);
    if n >= 10 {
        push_decimal(s, n / 10);
    }
    push_char(s, digits[(n % 10) as usize]);
    assert(s@ =~= old(s)@ + decimal(n as nat));
}

// ---------------------------------------------------------------------------
// PNG normalization.
// ---------------------------------------------------------------------------

/// The eight bytes every PNG file begins with.
pub open spec fn png_signature() -> Seq<u8> {
    seq![0x89u8, 0x50u8, 0x4Eu8, 0x47u8, 0x0Du8, 0x0Au8, 0x1Au8, 0x0Au8]
}

/// `bytes` begin with the PNG signature.
pub open spec fn is_png(bytes: Seq<u8>) -> bool {
    bytes.len() >= 8 && bytes.take(8) == png_signature()
}

/// The PNG that an image is kept as: PNG input as it is, other formats
/// decoded and encoded again as PNG.
pub open spec fn normalized_png(bytes: Seq<u8>) -> Option<Seq<u8>> {
    if is_png(bytes) {
        Some(bytes)
    } else {
        match decoded_rgba(bytes) {
            Some((px, w, h)) => png_encoding(w, h, px),
            None => None,
        }
    }
}

/// `s` begins with `p`.
pub open spec fn text_starts_with(s: Seq<char>, p: Seq<char>) -> bool {
    p.len() <= s.len() && s.take(p.len() as int) == p
}

fn has_png_signature(bytes: &[u8]) -> (r: bool)
    ensures
        r == is_png(bytes@),
{
    let sig: [u8; 8] = [0x89, 0x50, 0x4E, 0x47, 0x0D, 0x0A, 0x1A, 0x0A];
    assert(sig@ =~= png_signature());
    if bytes.len() < 8 {
        return false;
    }
    let mut i: usize = 0;
    while i < 8
        invariant
            i <= 8 <= bytes@.len(),
            sig@ == png_signature(),
            forall|j: int| 0 <= j < i ==> bytes@[j] == sig@[j],
        decreases 8 - i,
    {
        if bytes[i] != sig[i] {
            assert(bytes@.take(8)[i as int] != png_signature()[i as int]);
            return false;
        }
        i = i + 1;
    }
    assert(bytes@.take(8) =~= png_signature());
    true
}

/// `prefix` followed by `detail`.
fn message(prefix: &str, detail: &str) -> (r: String)
    ensures
        r@ == prefix@ + detail@,
{
    let mut r = String::new();
    push_str(&mut r, prefix);
    push_str(&mut r, detail);
    assert(r@ =~= prefix@ + detail@);
    r
}

/// Converts an image in any supported raster format (PNG, JPEG, WebP, BMP,
/// GIF, TIFF) to PNG, so that storage and display share one format. PNG input
/// is passed through untouched, with no pointless encoding of large
/// screenshots.
pub fn normalize_to_png(bytes: &[u8]) -> (r: Result<Vec<u8>, String>)
    ensures
        match r {
            Ok(png) => normalized_png(bytes@) == Some(png@),
            Err(e) => normalized_png(bytes@) is None && if decoded_rgba(bytes@) is None {
                text_starts_with(e@, "image decode failed: "@)
            } else {
                text_starts_with(e@, "png encode failed: "@)
            },
        },
        is_png(bytes@) ==> (r matches Ok(png) && png@ == bytes@),
        r matches Ok(png) ==> is_png(png@),
{
    if has_png_signature(bytes) {
        return Ok(vstd::slice::slice_to_vec(bytes));
    }
    match decode_rgba(bytes) {
        Err(e) => {
            let m = message("image decode failed: ", e.as_str());
            assert(m@.take("image decode failed: "@.len() as int) =~= "image decode failed: "@);
            Err(m)
        },
        Ok((px, w, h)) => match encode_rgba_png(w, h, px) {
            Ok(png) => Ok(png),
            Err(e) => {
                let m = message("png encode failed: ", e.as_str());
                assert(m@.take("png encode failed: "@.len() as int) =~= "png encode failed: "@);
                Err(m)
            },
        },
    }
}

/// The buffer for a `width` by `height` RGBA image is large enough: it holds
/// four bytes for each pixel, and a row's byte count fits in a `usize`, as
/// `ImageBuffer::from_raw` checks.
pub open spec fn rgba_fits(width: u32, height: u32, len: nat) -> bool {
    4 * width <= usize::MAX && 4 * width * height <= len
}

/// The buffer holds exactly the four bytes of each pixel of a `width` by
/// `height` RGBA image.
pub open spec fn rgba_exact(width: u32, height: u32, len: nat) -> bool {
    4 * width <= usize::MAX && 4 * width * height == len
}

/// The PNG for an RGBA buffer of the given size, or none when the buffer is
/// too small for it.
pub open spec fn rgba_png(width: usize, height: usize, rgba: Seq<u8>) -> Option<Seq<u8>> {
    let w = #[verifier::truncate] (width as u32);
    let h = #[verifier::truncate] (height as u32);
    if rgba_fits(w, h, rgba.len()) {
        png_encoding(w, h, rgba)
    } else {
        None
    }
}

/// Encodes RGBA pixels read off the clipboard as PNG. The dimensions are taken
/// as 32-bit values; a buffer too small for them is refused with an
/// `invalid image dimensions {width}x{height}` message. A buffer longer than
/// they call for is left out: the PNG encoder panics on it.
pub fn encode_png(width: usize, height: usize, rgba: &[u8]) -> (r: Result<Vec<u8>, String>)
    requires
        rgba_fits(
            #[verifier::truncate] (width as u32),
            #[verifier::truncate] (height as u32),
            rgba@.len(),
        ) ==> rgba_exact(
            #[verifier::truncate] (width as u32),
            #[verifier::truncate] (height as u32),
            rgba@.len(),
        ),
    ensures
        match r {
            Ok(png) => rgba_png(width, height, rgba@) == Some(png@),
            Err(e) => rgba_png(width, height, rgba@) is None && if rgba_fits(
                #[verifier::truncate] (width as u32),
                #[verifier::truncate] (height as u32),
                rgba@.len(),
            ) {
                text_starts_with(e@, "png encode failed: "@)
            } else {
                e@ == "invalid image dimensions "@ + decimal(width as nat) + "x"@ + decimal(
                    height as nat,
                )
            },
        },
        r matches Ok(png) ==> is_png(png@),
{
    let w = #[verifier::truncate] (width as u32);
    let h = #[verifier::truncate] (height as u32);
    let len = rgba.len();
    let fits = match 4usize.checked_mul(w as usize) {
        Some(row) => {
            assert(row == 4 * w);
            match row.checked_mul(h as usize) {
                Some(total) => {
                    assert(total == 4 * w * h);
                    total <= len
                },
                None => {
                    assert(4 * w * h > usize::MAX);
                    false
                },
            }
        },
        None => false,
    };
    if !fits {
        assert(!rgba_fits(w, h, rgba@.len()));
        let mut m = "invalid image dimensions ".to_owned();
        push_decimal(&mut m, width as u64);
        push_str(&mut m, "x");
        push_decimal(&mut m, height as u64);
        return Err(m);
    }
    match encode_rgba_png(w, h, vstd::slice::slice_to_vec(rgba)) {
        Ok(png) => Ok(png),
        Err(e) => {
            let m = message("png encode failed: ", e.as_str());
            assert(m@.take("png encode failed: "@.len() as int) =~= "png encode failed: "@);
            Err(m)
        },
    }
}

/// Decodes a stored PNG to RGBA pixels, with its width and height, for
/// clipboards that take raw pixels.
pub fn decode_png(png: &[u8]) -> (r: Result<(Vec<u8>, usize, usize), String>)
    ensures
        match r {
            Ok((px, w, h)) => {
                &&& decoded_rgba(png@) == Some((px@, w as u32, h as u32))
                &&& w <= u32::MAX && h <= u32::MAX
                &&& rgba_exact(w as u32, h as u32, px@.len())
            },
            Err(e) => decoded_rgba(png@) is None && text_starts_with(e@, "png decode failed: "@),
        },
{
    match decode_rgba(png) {
        Ok((px, w, h)) => Ok((px, w as usize, h as usize)),
        Err(e) => {
            let m = message("png decode failed: ", e.as_str());
            assert(m@.take("png decode failed: "@.len() as int) =~= "png decode failed: "@);
            Err(m)
        },
    }
}

} // verus!
