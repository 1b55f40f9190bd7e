//! Pixel buffers the pipeline stages exchange.
//!
//! A raster is a width, a height and a flat, row-major pixel vector:
//! one byte per pixel for luminance data, three bytes (red, green,
//! blue) per pixel for color data.

use vstd::prelude::*;

verus! {

/// Single-channel 8-bit image: `pixels[y * width + x]` is the
/// luminance of the pixel at column `x` of row `y`.
pub struct GrayRaster {
    pub width: usize,
    pub height: usize,
    pub pixels: Vec<u8>,
}

/// Three-channel 8-bit image: the bytes at `3 * (y * width + x)` and
/// the two after it are the red, green and blue values of the pixel
/// at column `x` of row `y`.
pub struct RgbRaster {
    pub width: usize,
    pub height: usize,
    pub pixels: Vec<u8>,
}

impl GrayRaster {
    /// The buffer holds exactly one byte per pixel.
    pub open spec fn wf(self) -> bool {
        self.pixels@.len() == self.width as int * self.height as int
    }

    /// Every pixel has the same value `v`.
    pub open spec fn is_uniform(self, v: u8) -> bool {
        forall|i: int| 0 <= i < self.pixels@.len() ==> self.pixels@[i] == v
    }
}

impl RgbRaster {
    /// The buffer holds exactly three bytes per pixel.
    pub open spec fn wf(self) -> bool {
        self.pixels@.len() == 3 * self.width as int * self.height as int
    }

    /// Every channel of every pixel has the same value `v`.
    pub open spec fn is_uniform(self, v: u8) -> bool {
        forall|i: int| 0 <= i < self.pixels@.len() ==> self.pixels@[i] == v
    }
}

/// Byte-for-byte copy of a buffer.
pub fn copy_bytes(v: &Vec<u8>) -> (r: Vec<u8>)
    ensures
        r@ == v@,
{
    let mut r: Vec<u8> = Vec::new();
    let mut i: usize = 0;
    let n = v.len();
    while i < n
        invariant
            n == v@.len(),
            0 <= i <= n,
            r@ == v@.take(i as int),
        decreases n - i,
    {
        r.push(v[i]);
        proof {
            assert(v@.take(i as int + 1) =~= v@.take(i as int).push(v@[i as int]));
        }
        i += 1;
    }
    proof {
        assert(v@.take(n as int) =~= v@);
    }
    r
}

} // verus!
