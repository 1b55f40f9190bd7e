//! Tone adjuster: a linear contrast transform around mid-gray.
//!
//! Every channel of every pixel moves away from (factor above 1) or
//! toward (factor below 1) the midpoint 128, clamped to the 8-bit
//! range. The factor is given in hundredths, so the transform is
//! exact integer arithmetic.

use vstd::prelude::*;
use vstd::arithmetic::div_mod::lemma_div_multiples_vanish;
use crate::raster::RgbRaster;

verus! {

/// One channel after the contrast transform with factor `c` (in
/// hundredths): `clamp((p - 128) * c/100 + 128, 0, 255)`, the
/// fractional part truncated.
pub open spec fn adjusted_channel(p: int, c: int) -> int {
    let t = (p - 128) * c + 12800;
    if t < 0 {
        0
    } else if t / 100 > 255 {
        255
    } else {
        t / 100
    }
}

/// A contrast factor of 1 (c = 100 hundredths) leaves every channel
/// value exactly as it was.
pub proof fn lemma_contrast_identity(p: int)
    requires
        0 <= p <= 255,
    ensures
        adjusted_channel(p, 100) == p,
{
    assert((p - 128) * 100 + 12800 == 100 * p) by (nonlinear_arith);
    lemma_div_multiples_vanish(p, 100);
}

/// One channel of the contrast transform.
pub fn adjust_channel(p: u8, c: u32) -> (r: u8)
    requires
        0 < c <= 300,
    ensures
        r as int == adjusted_channel(p as int, c as int),
{
    proof {
        assert((p as int - 128) * (c as int) <= 127 * 300 && (p as int - 128) * (c as int) >= -128
            * 300) by (nonlinear_arith)
            requires
                0 <= p as int <= 255,
                0 < c as int <= 300,
        ;
    }
    let t: i64 = (p as i64 - 128) * (c as i64) + 12800;
    if t < 0 {
        0
    } else {
        let v = t / 100;
        if v > 255 {
            255
        } else {
            v as u8
        }
    }
}

/// Enhance contrast: apply the transform to every channel of every
/// pixel, producing a new buffer of the same dimensions.
pub fn enhance_contrast(img: &RgbRaster, factor: u32) -> (r: RgbRaster)
    requires
        img.wf(),
        0 < factor <= 300,
    ensures
        r.wf(),
        r.width == img.width,
        r.height == img.height,
        r.pixels@.len() == img.pixels@.len(),
        forall|i: int|
            0 <= i < img.pixels@.len() ==> r.pixels@[i] as int == adjusted_channel(
                img.pixels@[i] as int,
                factor as int,
            ),
{
    let n = img.pixels.len();
    let mut out: Vec<u8> = Vec::new();
    let mut i: usize = 0;
    while i < n
        invariant
            n == img.pixels@.len(),
            0 < factor <= 300,
            0 <= i <= n,
            out@.len() == i,
            forall|j: int|
                0 <= j < i ==> out@[j] as int == adjusted_channel(
                    img.pixels@[j] as int,
                    factor as int,
                ),
        decreases n - i,
    {
        let v = adjust_channel(img.pixels[i], factor);
        out.push(v);
        i += 1;
    }
    RgbRaster { width: img.width, height: img.height, pixels: out }
}

} // verus!
