//! Trusted boundary to the external image library: decoding encoded
//! bytes, high-quality resampling, and grayscale reduction. Each
//! wrapper converts between the library's buffer types and this
//! crate's plain rasters; everything downstream of these calls is
//! verified against the contracts stated here.
//!
//! Decoding and resampling are deterministic in their arguments, so
//! their results carry names: the contracts tie success, dimensions
//! and pixels to those names exactly, and two calls on equal inputs
//! are equal.

use vstd::prelude::*;
use crate::raster::GrayRaster;
use crate::raster::RgbRaster;

verus! {

/// What the external decoder makes of a byte string, if anything:
/// the width, height and packed row-major RGB bytes of the decoded
/// image. Decoding is a function of the bytes alone.
pub uninterp spec fn decoded_image(bytes: Seq<u8>) -> Option<(int, int, Seq<u8>)>;

/// What the external Catmull-Rom resampler produces from a packed
/// RGB buffer of dimensions `w` x `h` resampled to `new_w` x
/// `new_h`. The result is a function of its arguments alone.
pub uninterp spec fn resampled(pixels: Seq<u8>, w: int, h: int, new_w: int, new_h: int) -> Seq<
    u8,
>;

/// What the external grayscale reduction computes for one pixel:
/// the sRGB luminance of a red, green, blue triple, with the
/// integer coefficients the image library documents.
pub open spec fn luma_value(r: u8, g: u8, b: u8) -> u8 {
    ((2126 * (r as int) + 7152 * (g as int) + 722 * (b as int)) / 10000) as u8
}

/// Relies on `image::load_from_memory` to decode encoded bytes and
/// on `image::DynamicImage::to_rgb8` to lay the decoded pixels out
/// as packed 8-bit RGB rows; `into_raw` returns that buffer, whose
/// length is three bytes per pixel and whose dimensions are `u32`.
/// Success and contents are exactly the named decode result; on
/// failure the decoder's message is passed along.
#[verifier::external_body]
pub fn decode_rgb(bytes: &Vec<u8>) -> (r: Result<RgbRaster, String>)
    ensures
        r is Ok <==> decoded_image(bytes@) is Some,
        r is Ok ==> ({
            let dims = decoded_image(bytes@)->0;
            &&& r->Ok_0.width as int == dims.0
            &&& r->Ok_0.height as int == dims.1
            &&& r->Ok_0.pixels@ == dims.2
        }),
        r is Ok ==> r->Ok_0.wf() && r->Ok_0.width <= u32::MAX && r->Ok_0.height <= u32::MAX,
{
    match image::load_from_memory(bytes.as_slice()) {
        Ok(img) => {
            let rgb = img.to_rgb8();
            let (width, height) = rgb.dimensions();
            Ok(
                RgbRaster {
                    width: width as usize,
                    height: height as usize,
                    pixels: rgb.into_raw(),
                },
            )
        },
        Err(e) => Err(e.to_string()),
    }
}

/// Relies on `image::imageops::resize` with the Catmull-Rom filter:
/// the returned buffer has exactly the requested dimensions, and its
/// pixels are the named resample of the input.
#[verifier::external_body]
pub fn resize_rgb(img: &RgbRaster, new_width: usize, new_height: usize) -> (r: RgbRaster)
    requires
        img.wf(),
        1 <= img.width <= u32::MAX,
        1 <= img.height <= u32::MAX,
        1 <= new_width <= u32::MAX,
        1 <= new_height <= u32::MAX,
    ensures
        r.wf(),
        r.width == new_width,
        r.height == new_height,
        r.pixels@ == resampled(
            img.pixels@,
            img.width as int,
            img.height as int,
            new_width as int,
            new_height as int,
        ),
{
    let buf = image::RgbImage::from_raw(
        img.width as u32,
        img.height as u32,
        img.pixels.clone(),
    ).unwrap();
    let resized = image::imageops::resize(
        &buf,
        new_width as u32,
        new_height as u32,
        image::imageops::FilterType::CatmullRom,
    );
    RgbRaster { width: new_width, height: new_height, pixels: resized.into_raw() }
}

/// Relies on `image::imageops::grayscale`: every output pixel is the
/// sRGB luminance of the corresponding input pixel, computed from
/// its three channels alone as `luma_value` states.
#[verifier::external_body]
pub fn rgb_to_luma(img: &RgbRaster) -> (r: GrayRaster)
    requires
        img.wf(),
        img.width <= u32::MAX,
        img.height <= u32::MAX,
    ensures
        r.wf(),
        r.width == img.width,
        r.height == img.height,
        forall|i: int|
            0 <= i < r.pixels@.len() ==> #[trigger] r.pixels@[i] == luma_value(
                img.pixels@[3 * i],
                img.pixels@[3 * i + 1],
                img.pixels@[3 * i + 2],
            ),
{
    let buf = image::RgbImage::from_raw(
        img.width as u32,
        img.height as u32,
        img.pixels.clone(),
    ).unwrap();
    let gray = image::imageops::grayscale(&buf);
    GrayRaster { width: img.width, height: img.height, pixels: gray.into_raw() }
}

} // verus!
