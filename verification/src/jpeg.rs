//! JPEG bridging: the encoder and decoder are outside collaborators; this
//! module names what they produce and wraps the calls.
//!
//! Encoding and decoding are pure functions of their byte inputs, so their
//! results carry uninterpreted names that the pipeline contracts compose.

use vstd::prelude::*;

verus! {

/// The JPEG stream that encoding a `w x h` 8-bit grayscale plane at the
/// given quality produces.
pub uninterp spec fn jpeg_l8_of(pixels: Seq<u8>, w: int, h: int, quality: u8) -> Seq<u8>;

/// The JPEG stream that encoding a `w x h` interleaved 8-bit RGB plane at
/// the given quality produces.
pub uninterp spec fn jpeg_rgb8_of(pixels: Seq<u8>, w: int, h: int, quality: u8) -> Seq<u8>;

/// What decoding a JPEG stream to an interleaved 8-bit RGB image yields:
/// width, height and the pixel bytes, or `None` where the stream is not a
/// decodable JPEG.
pub uninterp spec fn jpeg_decoded_rgb(bytes: Seq<u8>) -> Option<(int, int, Seq<u8>)>;

/// Relies on image's `JpegEncoder::new_with_quality` and `encode` with an
/// `L8` buffer: for a correctly sized plane with JPEG-expressible
/// dimensions, writing to a byte vector cannot fail, and the output is a
/// function of the plane, the dimensions and the quality alone.
#[verifier::external_body]
pub(crate) fn encode_jpeg_l8(pixels: &Vec<u8>, w: u32, h: u32, quality: u8, out: &mut Vec<u8>)
    requires
        pixels.len() == w * h,
        1 <= w <= 65535,
        1 <= h <= 65535,
    ensures
        final(out)@ == jpeg_l8_of(pixels@, w as int, h as int, quality),
{
    out.clear();
    let mut encoder = image::codecs::jpeg::JpegEncoder::new_with_quality(&mut *out, quality);
    let _ = encoder.encode(pixels.as_slice(), w, h, image::ExtendedColorType::L8);
}

/// Relies on image's `JpegEncoder::new_with_quality` and `encode` with an
/// `Rgb8` buffer: as for the grayscale case, the call cannot fail on a
/// correctly sized plane and its output depends on the arguments alone.
#[verifier::external_body]
pub(crate) fn encode_jpeg_rgb8(pixels: &Vec<u8>, w: u32, h: u32, quality: u8, out: &mut Vec<u8>)
    requires
        pixels.len() == 3 * (w * h),
        1 <= w <= 65535,
        1 <= h <= 65535,
    ensures
        final(out)@ == jpeg_rgb8_of(pixels@, w as int, h as int, quality),
{
    out.clear();
    let mut encoder = image::codecs::jpeg::JpegEncoder::new_with_quality(&mut *out, quality);
    let _ = encoder.encode(pixels.as_slice(), w, h, image::ExtendedColorType::Rgb8);
}

/// Relies on image's `JpegDecoder::new`, `DynamicImage::from_decoder` and
/// `to_rgb8`: decoding is a function of the JPEG bytes alone; a decoded
/// image carries `u16` dimensions and exactly `3 * w * h` RGB bytes.
#[verifier::external_body]
pub(crate) fn decode_jpeg_rgb(jpeg: &Vec<u8>) -> (r: Option<(u32, u32, Vec<u8>)>)
    ensures
        match r {
            Some((w, h, px)) => {
                &&& jpeg_decoded_rgb(jpeg@) == Some((w as int, h as int, px@))
                &&& px@.len() == 3 * (w * h)
                &&& w <= 65535
                &&& h <= 65535
            },
            None => jpeg_decoded_rgb(jpeg@) is None,
        },
{
    let cursor = std::io::Cursor::new(jpeg.as_slice());
    let decoder = match image::codecs::jpeg::JpegDecoder::new(cursor) {
        Ok(d) => d,
        Err(_) => return None,
    };
    let img = match image::DynamicImage::from_decoder(decoder) {
        Ok(i) => i,
        Err(_) => return None,
    };
    let rgb = img.to_rgb8();
    let (w, h) = (rgb.width(), rgb.height());
    Some((w, h, rgb.into_raw()))
}

/// A fresh copy of a byte vector.
pub fn copy_bytes(src: &Vec<u8>) -> (r: Vec<u8>)
    ensures
        r@ == src@,
{
    let mut r: Vec<u8> = Vec::new();
    let mut i: usize = 0;
    while i < src.len()
        invariant
            i <= src.len(),
            r@ == src@.subrange(0, i as int),
        decreases src.len() - i,
    {
        r.push(src[i]);
        i = i + 1;
        proof {
            assert(r@ =~= src@.subrange(0, i as int));
        }
    }
    proof {
        assert(r@ =~= src@);
    }
    r
}

} // verus!
