//! Denoiser: separable Gaussian blur over a luminance buffer.
//!
//! A 1-D kernel of radius `ceil(3*sigma)` (total width rounded up to
//! the next odd count) is applied in two passes, horizontal then
//! vertical. At the borders, out-of-bounds taps are dropped and each
//! pixel is the weighted average of its in-bounds neighbors only.
//!
//! Sigma is given in hundredths and the kernel holds fixed-point
//! weights scaled by 2^16: the Gaussian `exp(-d^2/(2*sigma^2))` is
//! `2^(-d^2/(2*sigma^2)*log2(e))`, and the dyadic power is
//! approximated piecewise-linearly between neighboring powers of
//! two. A weighted average with *any* such kernel leaves a uniform
//! buffer unchanged, and the center tap always carries full weight,
//! so no per-pixel weight sum is ever zero.

use vstd::prelude::*;
use vstd::arithmetic::div_mod::lemma_div_is_ordered;
use vstd::arithmetic::div_mod::lemma_div_is_ordered_by_denominator;
use vstd::arithmetic::div_mod::lemma_div_multiples_vanish;
use vstd::arithmetic::div_mod::lemma_div_pos_is_pos;
use vstd::arithmetic::div_mod::lemma_fundamental_div_mod_converse;
use crate::raster::copy_bytes;
use crate::raster::GrayRaster;

verus! {

/// Number of kernel taps for sigma `s` in hundredths:
/// `ceil(6*sigma)` rounded up to the next odd count.
pub open spec fn kernel_len(s: int) -> int {
    let k0 = (6 * s + 99) / 100;
    if k0 % 2 == 0 {
        k0 + 1
    } else {
        k0
    }
}

/// Index of the center tap; taps run over offsets
/// `-kernel_half(s) ..= kernel_half(s)`.
pub open spec fn kernel_half(s: int) -> int {
    kernel_len(s) / 2
}

/// `x` halved `a` times, each step truncating.
pub open spec fn halved(x: int, a: int) -> int
    decreases a,
{
    if a <= 0 {
        x
    } else {
        halved(x / 2, a - 1)
    }
}

/// Fixed-point Gaussian weight of a tap at offset `d`:
/// `2^16 * exp(-d^2/(2*(s/100)^2))`, the dyadic exponential taken
/// piecewise-linearly. `e` is the negated base-2 exponent in Q16
/// (7213 is `5000 * log2(e)` rounded).
pub open spec fn gauss_weight(d: int, s: int) -> int {
    let e = 7213 * (d * d) * 65536 / (s * s);
    let a = e / 65536;
    if a >= 17 {
        0
    } else {
        halved(65536 - (e % 65536) / 2, a)
    }
}

pub proof fn lemma_halved_bounds(x: int, a: int)
    requires
        0 <= x,
    ensures
        0 <= halved(x, a) <= x,
    decreases a,
{
    if a > 0 {
        lemma_div_pos_is_pos(x, 2);
        lemma_div_is_ordered_by_denominator(x, 1, 2);
        lemma_halved_bounds(x / 2, a - 1);
    }
}

/// The center tap always carries the full fixed-point weight.
pub proof fn lemma_gauss_weight_center(s: int)
    requires
        1 <= s,
    ensures
        gauss_weight(0, s) == 65536,
{
    assert(0 < s * s) by (nonlinear_arith)
        requires
            1 <= s,
    ;
    assert(7213 * (0 * 0) * 65536 == 0);
    assert(0int / (s * s) == 0) by {
        vstd::arithmetic::div_mod::lemma_div_of0(s * s);
    }
}

pub proof fn lemma_gauss_weight_bounds(d: int, s: int)
    requires
        1 <= s,
    ensures
        0 <= gauss_weight(d, s) <= 65536,
{
    assert(0 < s * s) by (nonlinear_arith)
        requires
            1 <= s,
    ;
    let e = 7213 * (d * d) * 65536 / (s * s);
    assert(0 <= 7213 * (d * d) * 65536) by (nonlinear_arith);
    lemma_div_pos_is_pos(7213 * (d * d) * 65536, s * s);
    let a = e / 65536;
    if a < 17 {
        vstd::arithmetic::div_mod::lemma_mod_bound(e, 65536);
        lemma_div_pos_is_pos(e % 65536, 2);
        lemma_div_is_ordered(0, e % 65536, 2);
        lemma_halved_bounds(65536 - (e % 65536) / 2, a);
    }
}

/// Weighted sum of the first `i` horizontal taps at `(x, y)`, over
/// the in-bounds neighbors only.
pub open spec fn hnum(p: Seq<u8>, w: int, x: int, y: int, s: int, i: int) -> int
    decreases i,
{
    if i <= 0 {
        0
    } else {
        hnum(p, w, x, y, s, i - 1) + ({
            let ox = x + (i - 1) - kernel_half(s);
            if 0 <= ox < w {
                gauss_weight((i - 1) - kernel_half(s), s) * p[y * w + ox]
            } else {
                0
            }
        })
    }
}

/// Sum of the weights of the first `i` horizontal taps that fall in
/// bounds at `(x, y)`.
pub open spec fn hden(w: int, x: int, s: int, i: int) -> int
    decreases i,
{
    if i <= 0 {
        0
    } else {
        hden(w, x, s, i - 1) + ({
            let ox = x + (i - 1) - kernel_half(s);
            if 0 <= ox < w {
                gauss_weight((i - 1) - kernel_half(s), s)
            } else {
                0
            }
        })
    }
}

/// Weighted sum of the first `i` vertical taps at `(x, y)`.
pub open spec fn vnum(p: Seq<u8>, w: int, h: int, x: int, y: int, s: int, i: int) -> int
    decreases i,
{
    if i <= 0 {
        0
    } else {
        vnum(p, w, h, x, y, s, i - 1) + ({
            let oy = y + (i - 1) - kernel_half(s);
            if 0 <= oy < h {
                gauss_weight((i - 1) - kernel_half(s), s) * p[oy * w + x]
            } else {
                0
            }
        })
    }
}

/// Sum of the weights of the first `i` vertical taps in bounds.
pub open spec fn vden(h: int, y: int, s: int, i: int) -> int
    decreases i,
{
    if i <= 0 {
        0
    } else {
        vden(h, y, s, i - 1) + ({
            let oy = y + (i - 1) - kernel_half(s);
            if 0 <= oy < h {
                gauss_weight((i - 1) - kernel_half(s), s)
            } else {
                0
            }
        })
    }
}

/// One pixel of the horizontal pass: the renormalized weighted
/// average of its in-bounds row neighbors.
pub open spec fn hpix(p: Seq<u8>, w: int, x: int, y: int, s: int) -> int {
    hnum(p, w, x, y, s, kernel_len(s)) / hden(w, x, s, kernel_len(s))
}

/// One pixel of the vertical pass.
pub open spec fn vpix(p: Seq<u8>, w: int, h: int, x: int, y: int, s: int) -> int {
    vnum(p, w, h, x, y, s, kernel_len(s)) / vden(h, y, s, kernel_len(s))
}

/// The buffer after the horizontal pass.
pub open spec fn hblurred(p: Seq<u8>, w: int, h: int, s: int) -> Seq<u8> {
    Seq::new((w * h) as nat, |j: int| hpix(p, w, j % w, j / w, s) as u8)
}

/// The buffer after the vertical pass.
pub open spec fn vblurred(p: Seq<u8>, w: int, h: int, s: int) -> Seq<u8> {
    Seq::new((w * h) as nat, |j: int| vpix(p, w, h, j % w, j / w, s) as u8)
}

/// The buffer after both passes: the separable Gaussian blur.
pub open spec fn blurred(p: Seq<u8>, w: int, h: int, s: int) -> Seq<u8> {
    vblurred(hblurred(p, w, h, s), w, h, s)
}

pub proof fn lemma_kernel_shape(s: int)
    requires
        1 <= s <= 500,
    ensures
        1 <= kernel_len(s) <= 31,
        kernel_len(s) == 2 * kernel_half(s) + 1,
        0 <= kernel_half(s) <= 15,
{
    let k0 = (6 * s + 99) / 100;
    lemma_div_pos_is_pos(6 * s + 99, 100);
    lemma_div_is_ordered(6 * s + 99, 3099, 100);
    assert(3099int / 100 == 30) by {
        lemma_fundamental_div_mod_converse(3099, 100, 30, 99);
    }
    assert(105int / 100 == 1) by {
        lemma_fundamental_div_mod_converse(105, 100, 1, 5);
    }
    lemma_div_is_ordered(105, 6 * s + 99, 100);
    let k = kernel_len(s);
    assert(k % 2 == 1) by {
        vstd::arithmetic::div_mod::lemma_fundamental_div_mod(k0, 2);
        vstd::arithmetic::div_mod::lemma_mod_bound(k0, 2);
        if k0 % 2 == 0 {
            lemma_fundamental_div_mod_converse(k0 + 1, 2, k0 / 2, 1);
        }
    }
    lemma_fundamental_div_mod_converse(k, 2, (k - 1) / 2, 1);
    vstd::arithmetic::div_mod::lemma_fundamental_div_mod(k, 2);
}

proof fn lemma_htaps_bounds(p: Seq<u8>, w: int, x: int, y: int, s: int, i: int)
    requires
        1 <= s,
        0 <= i,
    ensures
        0 <= hden(w, x, s, i) <= 65536 * i,
        0 <= hnum(p, w, x, y, s, i) <= 255 * hden(w, x, s, i),
    decreases i,
{
    if i > 0 {
        lemma_htaps_bounds(p, w, x, y, s, i - 1);
        let ox = x + (i - 1) - kernel_half(s);
        let wt = gauss_weight((i - 1) - kernel_half(s), s);
        lemma_gauss_weight_bounds((i - 1) - kernel_half(s), s);
        if 0 <= ox < w {
            let pv = p[y * w + ox] as int;
            assert(0 <= wt * pv <= 255 * wt) by (nonlinear_arith)
                requires
                    0 <= wt,
                    0 <= pv <= 255,
            ;
        }
    }
}

proof fn lemma_vtaps_bounds(p: Seq<u8>, w: int, h: int, x: int, y: int, s: int, i: int)
    requires
        1 <= s,
        0 <= i,
    ensures
        0 <= vden(h, y, s, i) <= 65536 * i,
        0 <= vnum(p, w, h, x, y, s, i) <= 255 * vden(h, y, s, i),
    decreases i,
{
    if i > 0 {
        lemma_vtaps_bounds(p, w, h, x, y, s, i - 1);
        let oy = y + (i - 1) - kernel_half(s);
        let wt = gauss_weight((i - 1) - kernel_half(s), s);
        lemma_gauss_weight_bounds((i - 1) - kernel_half(s), s);
        if 0 <= oy < h {
            let pv = p[oy * w + x] as int;
            assert(0 <= wt * pv <= 255 * wt) by (nonlinear_arith)
                requires
                    0 <= wt,
                    0 <= pv <= 255,
            ;
        }
    }
}

/// The center tap is always in bounds, so the in-bounds weight sum
/// of a full pass is at least the center weight.
proof fn lemma_hden_center(w: int, x: int, s: int, i: int)
    requires
        1 <= s <= 500,
        0 <= x < w,
        kernel_half(s) + 1 <= i,
    ensures
        65536 <= hden(w, x, s, i),
    decreases i,
{
    lemma_kernel_shape(s);
    let half = kernel_half(s);
    if i == half + 1 {
        lemma_htaps_bounds(Seq::<u8>::empty(), w, x, 0, s, i - 1);
        lemma_gauss_weight_center(s);
    } else {
        lemma_hden_center(w, x, s, i - 1);
        lemma_gauss_weight_bounds((i - 1) - half, s);
    }
}

proof fn lemma_vden_center(h: int, y: int, s: int, i: int)
    requires
        1 <= s <= 500,
        0 <= y < h,
        kernel_half(s) + 1 <= i,
    ensures
        65536 <= vden(h, y, s, i),
    decreases i,
{
    lemma_kernel_shape(s);
    let half = kernel_half(s);
    if i == half + 1 {
        lemma_vtaps_bounds(Seq::<u8>::empty(), 1, h, 0, y, s, i - 1);
        lemma_gauss_weight_center(s);
    } else {
        lemma_vden_center(h, y, s, i - 1);
        lemma_gauss_weight_bounds((i - 1) - half, s);
    }
}

/// A full-pass pixel is a weighted average, so it stays in the 8-bit
/// range.
pub proof fn lemma_hpix_range(p: Seq<u8>, w: int, h: int, x: int, y: int, s: int)
    requires
        1 <= s <= 500,
        0 <= x < w,
    ensures
        0 <= hpix(p, w, x, y, s) <= 255,
{
    lemma_kernel_shape(s);
    let i = kernel_len(s);
    lemma_htaps_bounds(p, w, x, y, s, i);
    lemma_hden_center(w, x, s, i);
    let num = hnum(p, w, x, y, s, i);
    let den = hden(w, x, s, i);
    lemma_div_pos_is_pos(num, den);
    lemma_div_is_ordered(num, 255 * den, den);
    lemma_div_multiples_vanish(255, den);
    assert(den * 255 == 255 * den) by (nonlinear_arith);
}

pub proof fn lemma_vpix_range(p: Seq<u8>, w: int, h: int, x: int, y: int, s: int)
    requires
        1 <= s <= 500,
        0 <= y < h,
    ensures
        0 <= vpix(p, w, h, x, y, s) <= 255,
{
    lemma_kernel_shape(s);
    let i = kernel_len(s);
    lemma_vtaps_bounds(p, w, h, x, y, s, i);
    lemma_vden_center(h, y, s, i);
    let num = vnum(p, w, h, x, y, s, i);
    let den = vden(h, y, s, i);
    lemma_div_pos_is_pos(num, den);
    lemma_div_is_ordered(num, 255 * den, den);
    lemma_div_multiples_vanish(255, den);
    assert(den * 255 == 255 * den) by (nonlinear_arith);
}

/// Divide by two `a` times.
fn halve_exec(x: u64, a: u64) -> (r: u64)
    requires
        x <= 65536,
    ensures
        r as int == halved(x as int, a as int),
        r <= x,
{
    let mut w = x;
    let mut j: u64 = 0;
    while j < a
        invariant
            0 <= j <= a,
            w <= x,
            halved(x as int, a as int) == halved(w as int, a as int - j),
        decreases a - j,
    {
        proof {
            lemma_div_pos_is_pos(w as int, 2);
            lemma_div_is_ordered_by_denominator(w as int, 1, 2);
        }
        w = w / 2;
        j += 1;
    }
    w
}

/// One fixed-point Gaussian weight.
fn gauss_weight_exec(d: u64, s: u32) -> (r: u64)
    requires
        d <= 15,
        1 <= s <= 500,
    ensures
        r as int == gauss_weight(d as int, s as int),
        r <= 65536,
{
    proof {
        assert(d as int * d as int <= 225 && 0 <= d as int * d as int) by (nonlinear_arith)
            requires
                0 <= (d as int) <= 15,
        ;
        assert(1 <= s as int * s as int <= 250000) by (nonlinear_arith)
            requires
                1 <= (s as int) <= 500,
        ;
    }
    let dd = d * d;
    let num = 7213 * dd * 65536;
    let ss = (s as u64) * (s as u64);
    let e = num / ss;
    proof {
        lemma_div_pos_is_pos(num as int, ss as int);
        vstd::arithmetic::div_mod::lemma_mod_bound(e as int, 65536);
        lemma_div_pos_is_pos(e as int % 65536, 2);
        lemma_div_is_ordered(0, e as int % 65536, 2);
    }
    let a = e / 65536;
    let f = e % 65536;
    if a >= 17 {
        0
    } else {
        let base = 65536 - f / 2;
        proof {
            lemma_halved_bounds(base as int, a as int);
        }
        halve_exec(base, a)
    }
}

/// The kernel as a vector of weights, center tap in the middle.
fn build_kernel(s: u32) -> (ker: Vec<u64>)
    requires
        1 <= s <= 500,
    ensures
        ker@.len() == kernel_len(s as int),
        forall|t: int|
            0 <= t < ker@.len() ==> ker@[t] as int == gauss_weight(
                t - kernel_half(s as int),
                s as int,
            ),
        forall|t: int| 0 <= t < ker@.len() ==> ker@[t] <= 65536,
{
    proof {
        lemma_kernel_shape(s as int);
    }
    let k0 = (6 * s + 99) / 100;
    let klen = (if k0 % 2 == 0 {
        k0 + 1
    } else {
        k0
    }) as usize;
    let half = klen / 2;
    let mut ker: Vec<u64> = Vec::new();
    let mut t: usize = 0;
    while t < klen
        invariant
            1 <= s <= 500,
            klen == kernel_len(s as int),
            half == kernel_half(s as int),
            klen <= 31,
            half <= 15,
            0 <= t <= klen,
            ker@.len() == t,
            forall|u: int|
                0 <= u < t ==> ker@[u] as int == gauss_weight(
                    u - kernel_half(s as int),
                    s as int,
                ),
            forall|u: int| 0 <= u < t ==> ker@[u] <= 65536,
        decreases klen - t,
    {
        let d = if t < half {
            (half - t) as u64
        } else {
            (t - half) as u64
        };
        proof {
            assert((t as int - half as int) * (t as int - half as int) == d as int * d as int)
                by (nonlinear_arith)
                requires
                    (d as int == t as int - half as int) || (d as int == half as int - t as int),
            ;
        }
        let w = gauss_weight_exec(d, s);
        ker.push(w);
        t += 1;
    }
    ker
}

/// The horizontal pass.
fn blur_horizontal(img: &GrayRaster, sigma: u32) -> (r: GrayRaster)
    requires
        img.wf(),
        1 <= sigma <= 500,
    ensures
        r.wf(),
        r.width == img.width,
        r.height == img.height,
        r.pixels@ == hblurred(img.pixels@, img.width as int, img.height as int, sigma as int),
{
    let w = img.width;
    let h = img.height;
    let s = sigma;
    let ker = build_kernel(s);
    let klen = ker.len();
    let half = klen / 2;
    proof {
        lemma_kernel_shape(s as int);
    }
    let ghost p = img.pixels@;
    let n = img.pixels.len();
    let mut out: Vec<u8> = Vec::new();
    let mut y: usize = 0;
    while y < h
        invariant
            img.wf(),
            p == img.pixels@,
            n == img.pixels@.len(),
            w == img.width,
            h == img.height,
            s == sigma,
            1 <= s <= 500,
            ker@.len() == klen,
            klen == kernel_len(s as int),
            half == kernel_half(s as int),
            forall|t: int|
                0 <= t < ker@.len() ==> ker@[t] as int == gauss_weight(
                    t - kernel_half(s as int),
                    s as int,
                ),
            forall|t: int| 0 <= t < ker@.len() ==> ker@[t] <= 65536,
            0 <= y <= h,
            out@.len() == y * w,
            forall|j: int|
                0 <= j < out@.len() ==> out@[j] as int == hpix(p, w as int, j % (w as int), j / (
                w as int), s as int),
        decreases h - y,
    {
        let mut x: usize = 0;
        while x < w
            invariant
                img.wf(),
                p == img.pixels@,
                n == img.pixels@.len(),
                w == img.width,
                h == img.height,
                s == sigma,
                1 <= s <= 500,
                ker@.len() == klen,
                klen == kernel_len(s as int),
                half == kernel_half(s as int),
                forall|t: int|
                    0 <= t < ker@.len() ==> ker@[t] as int == gauss_weight(
                        t - kernel_half(s as int),
                        s as int,
                    ),
                forall|t: int| 0 <= t < ker@.len() ==> ker@[t] <= 65536,
                0 <= y < h,
                0 <= x <= w,
                out@.len() == y * w + x,
                forall|j: int|
                    0 <= j < out@.len() ==> out@[j] as int == hpix(p, w as int, j % (w as int), j
                        / (w as int), s as int),
            decreases w - x,
        {
            let mut num: u64 = 0;
            let mut den: u64 = 0;
            let mut t: usize = 0;
            while t < klen
                invariant
                    img.wf(),
                    p == img.pixels@,
                    w == img.width,
                    h == img.height,
                    s == sigma,
                    1 <= s <= 500,
                    ker@.len() == klen,
                    klen == kernel_len(s as int),
                    klen <= 31,
                    half == kernel_half(s as int),
                    forall|u: int|
                        0 <= u < ker@.len() ==> ker@[u] as int == gauss_weight(
                            u - kernel_half(s as int),
                            s as int,
                        ),
                    forall|u: int| 0 <= u < ker@.len() ==> ker@[u] <= 65536,
                    0 <= y < h,
                    0 <= x < w,
                    0 <= t <= klen,
                    n == img.pixels@.len(),
                    num as int == hnum(p, w as int, x as int, y as int, s as int, t as int),
                    den as int == hden(w as int, x as int, s as int, t as int),
                    den <= 65536 * t,
                    num <= 255 * den,
                decreases klen - t,
            {
                proof {
                    lemma_gauss_weight_bounds(t as int - half as int, s as int);
                }
                let xt = x as u128 + t as u128;
                if xt >= half as u128 && xt < half as u128 + w as u128 {
                    let ox = (xt - half as u128) as usize;
                    proof {
                        assert((y as int) * (w as int) + (ox as int) < (h as int) * (w as int)
                            && 0 <= (y as int) * (w as int) + (ox as int)) by (nonlinear_arith)
                            requires
                                0 <= (y as int) < (h as int),
                                0 <= (ox as int) < (w as int),
                        ;
                        assert((h as int) * (w as int) == (w as int) * (h as int))
                            by (nonlinear_arith);
                        assert((y as int) * (w as int) + (ox as int) < n as int);
                    }
                    let pv = img.pixels[y * w + ox] as u64;
                    let wt = ker[t];
                    proof {
                        assert(wt as int * pv as int <= 255 * wt as int && 0 <= wt as int
                            * pv as int) by (nonlinear_arith)
                            requires
                                0 <= (wt as int),
                                0 <= (pv as int) <= 255,
                        ;
                    }
                    num = num + wt * pv;
                    den = den + wt;
                }
                t += 1;
            }
            proof {
                lemma_hden_center(w as int, x as int, s as int, klen as int);
            }
            let v = num / den;
            proof {
                lemma_hpix_range(p, w as int, h as int, x as int, y as int, s as int);
                let j = (y as int) * (w as int) + (x as int);
                lemma_fundamental_div_mod_converse(j, w as int, y as int, x as int);
            }
            out.push(v as u8);
            x += 1;
        }
        y += 1;
        proof {
            assert((y as int) * (w as int) == (y as int - 1) * (w as int) + (w as int))
                by (nonlinear_arith);
        }
    }
    proof {
        assert((h as int) * (w as int) == (w as int) * (h as int)) by (nonlinear_arith);
        assert(out@ =~= hblurred(p, w as int, h as int, s as int)) by {
            assert forall|j: int| 0 <= j < out@.len() implies out@[j] == hblurred(
                p,
                w as int,
                h as int,
                s as int,
            )[j] by {
                lemma_hpix_range(p, w as int, h as int, j % (w as int), j / (w as int), s as int);
                vstd::arithmetic::div_mod::lemma_mod_bound(j, w as int);
            }
        }
    }
    GrayRaster { width: w, height: h, pixels: out }
}

/// The vertical pass.
fn blur_vertical(img: &GrayRaster, sigma: u32) -> (r: GrayRaster)
    requires
        img.wf(),
        1 <= sigma <= 500,
    ensures
        r.wf(),
        r.width == img.width,
        r.height == img.height,
        r.pixels@ == vblurred(img.pixels@, img.width as int, img.height as int, sigma as int),
{
    let w = img.width;
    let h = img.height;
    let s = sigma;
    let ker = build_kernel(s);
    let klen = ker.len();
    let half = klen / 2;
    proof {
        lemma_kernel_shape(s as int);
    }
    let ghost p = img.pixels@;
    let n = img.pixels.len();
    let mut out: Vec<u8> = Vec::new();
    let mut y: usize = 0;
    while y < h
        invariant
            img.wf(),
            p == img.pixels@,
            n == img.pixels@.len(),
            w == img.width,
            h == img.height,
            s == sigma,
            1 <= s <= 500,
            ker@.len() == klen,
            klen == kernel_len(s as int),
            half == kernel_half(s as int),
            forall|t: int|
                0 <= t < ker@.len() ==> ker@[t] as int == gauss_weight(
                    t - kernel_half(s as int),
                    s as int,
                ),
            forall|t: int| 0 <= t < ker@.len() ==> ker@[t] <= 65536,
            0 <= y <= h,
            out@.len() == y * w,
            forall|j: int|
                0 <= j < out@.len() ==> out@[j] as int == vpix(p, w as int, h as int, j % (
                w as int), j / (w as int), s as int),
        decreases h - y,
    {
        let mut x: usize = 0;
        while x < w
            invariant
                img.wf(),
                p == img.pixels@,
                n == img.pixels@.len(),
                w == img.width,
                h == img.height,
                s == sigma,
                1 <= s <= 500,
                ker@.len() == klen,
                klen == kernel_len(s as int),
                half == kernel_half(s as int),
                forall|t: int|
                    0 <= t < ker@.len() ==> ker@[t] as int == gauss_weight(
                        t - kernel_half(s as int),
                        s as int,
                    ),
                forall|t: int| 0 <= t < ker@.len() ==> ker@[t] <= 65536,
                0 <= y < h,
                0 <= x <= w,
                out@.len() == y * w + x,
                forall|j: int|
                    0 <= j < out@.len() ==> out@[j] as int == vpix(p, w as int, h as int, j % (
                    w as int), j / (w as int), s as int),
            decreases w - x,
        {
            let mut num: u64 = 0;
            let mut den: u64 = 0;
            let mut t: usize = 0;
            while t < klen
                invariant
                    img.wf(),
                    p == img.pixels@,
                    w == img.width,
                    h == img.height,
                    s == sigma,
                    1 <= s <= 500,
                    ker@.len() == klen,
                    klen == kernel_len(s as int),
                    klen <= 31,
                    half == kernel_half(s as int),
                    forall|u: int|
                        0 <= u < ker@.len() ==> ker@[u] as int == gauss_weight(
                            u - kernel_half(s as int),
                            s as int,
                        ),
                    forall|u: int| 0 <= u < ker@.len() ==> ker@[u] <= 65536,
                    0 <= y < h,
                    0 <= x < w,
                    0 <= t <= klen,
                    n == img.pixels@.len(),
                    num as int == vnum(
                        p,
                        w as int,
                        h as int,
                        x as int,
                        y as int,
                        s as int,
                        t as int,
                    ),
                    den as int == vden(h as int, y as int, s as int, t as int),
                    den <= 65536 * t,
                    num <= 255 * den,
                decreases klen - t,
            {
                proof {
                    lemma_gauss_weight_bounds(t as int - half as int, s as int);
                }
                let yt = y as u128 + t as u128;
                if yt >= half as u128 && yt < half as u128 + h as u128 {
                    let oy = (yt - half as u128) as usize;
                    proof {
                        assert((oy as int) * (w as int) + (x as int) < (h as int) * (w as int)
                            && 0 <= (oy as int) * (w as int) + (x as int)) by (nonlinear_arith)
                            requires
                                0 <= (oy as int) < (h as int),
                                0 <= (x as int) < (w as int),
                        ;
                        assert((h as int) * (w as int) == (w as int) * (h as int))
                            by (nonlinear_arith);
                        assert((oy as int) * (w as int) + (x as int) < n as int);
                    }
                    let pv = img.pixels[oy * w + x] as u64;
                    let wt = ker[t];
                    proof {
                        assert(wt as int * pv as int <= 255 * wt as int && 0 <= wt as int
                            * pv as int) by (nonlinear_arith)
                            requires
                                0 <= (wt as int),
                                0 <= (pv as int) <= 255,
                        ;
                    }
                    num = num + wt * pv;
                    den = den + wt;
                }
                t += 1;
            }
            proof {
                lemma_vden_center(h as int, y as int, s as int, klen as int);
            }
            let v = num / den;
            proof {
                lemma_vpix_range(p, w as int, h as int, x as int, y as int, s as int);
                let j = (y as int) * (w as int) + (x as int);
                lemma_fundamental_div_mod_converse(j, w as int, y as int, x as int);
            }
            out.push(v as u8);
            x += 1;
        }
        y += 1;
        proof {
            assert((y as int) * (w as int) == (y as int - 1) * (w as int) + (w as int))
                by (nonlinear_arith);
        }
    }
    proof {
        assert((h as int) * (w as int) == (w as int) * (h as int)) by (nonlinear_arith);
        assert(out@ =~= vblurred(p, w as int, h as int, s as int)) by {
            assert forall|j: int| 0 <= j < out@.len() implies out@[j] == vblurred(
                p,
                w as int,
                h as int,
                s as int,
            )[j] by {
                vstd::arithmetic::div_mod::lemma_mod_bound(j, w as int);
                lemma_div_pos_is_pos(j, w as int);
                vstd::arithmetic::div_mod::lemma_multiply_divide_lt(j, w as int, h as int);
                lemma_vpix_range(p, w as int, h as int, j % (w as int), j / (w as int), s as int);
            }
        }
    }
    GrayRaster { width: w, height: h, pixels: out }
}

/// Gaussian blur: the identity for sigma 0 (in hundredths),
/// otherwise the two separable passes.
pub fn gaussian_blur(img: &GrayRaster, sigma: u32) -> (r: GrayRaster)
    requires
        img.wf(),
        sigma <= 500,
    ensures
        r.wf(),
        r.width == img.width,
        r.height == img.height,
        sigma == 0 ==> r.pixels@ == img.pixels@,
        1 <= sigma ==> r.pixels@ == blurred(
            img.pixels@,
            img.width as int,
            img.height as int,
            sigma as int,
        ),
{
    if sigma == 0 {
        let pixels = copy_bytes(&img.pixels);
        GrayRaster { width: img.width, height: img.height, pixels }
    } else {
        let horizontal = blur_horizontal(img, sigma);
        blur_vertical(&horizontal, sigma)
    }
}

} // verus!
