//! Level quantizer: histogram equalization followed by quantization
//! to the number of available glyph levels.
//!
//! Each pixel is remapped through the image's own cumulative
//! distribution (so the output uses the full dynamic range), then
//! snapped to one of `n` evenly spaced 8-bit bands.

use vstd::prelude::*;
use vstd::arithmetic::div_mod::lemma_div_is_ordered;
use vstd::arithmetic::div_mod::lemma_div_multiples_vanish;
use vstd::arithmetic::div_mod::lemma_div_pos_is_pos;
use vstd::arithmetic::div_mod::lemma_fundamental_div_mod;
use vstd::arithmetic::div_mod::lemma_fundamental_div_mod_converse;
use vstd::arithmetic::mul::lemma_mul_inequality;
use crate::raster::GrayRaster;

verus! {

/// Number of elements of `s` equal to `v`.
pub open spec fn count_eq(s: Seq<u8>, v: int) -> int
    decreases s.len(),
{
    if s.len() == 0 {
        0
    } else {
        count_eq(s.drop_last(), v) + (if s.last() as int == v {
            1int
        } else {
            0int
        })
    }
}

/// Number of elements of `s` at most `v`: the unnormalized
/// cumulative distribution of the image at bin `v`.
pub open spec fn count_le(s: Seq<u8>, v: int) -> int
    decreases s.len(),
{
    if s.len() == 0 {
        0
    } else {
        count_le(s.drop_last(), v) + (if s.last() as int <= v {
            1int
        } else {
            0int
        })
    }
}

pub proof fn lemma_counts_bounded(s: Seq<u8>, v: int)
    ensures
        0 <= count_eq(s, v) <= s.len(),
        0 <= count_le(s, v) <= s.len(),
    decreases s.len(),
{
    if s.len() > 0 {
        lemma_counts_bounded(s.drop_last(), v);
    }
}

/// The cumulative count at bin `v` is the one at `v - 1` plus the
/// histogram bin at `v`.
pub proof fn lemma_count_le_step(s: Seq<u8>, v: int)
    ensures
        count_le(s, v) == count_le(s, v - 1) + count_eq(s, v),
    decreases s.len(),
{
    if s.len() > 0 {
        lemma_count_le_step(s.drop_last(), v);
    }
}

/// Every byte is at most 255, so the last cumulative bin counts the
/// whole image.
pub proof fn lemma_count_le_total(s: Seq<u8>)
    ensures
        count_le(s, 255) == s.len(),
    decreases s.len(),
{
    if s.len() > 0 {
        lemma_count_le_total(s.drop_last());
    }
}

/// In a uniform image every pixel's cumulative count is the whole
/// image.
pub proof fn lemma_count_le_uniform(s: Seq<u8>, v: u8)
    requires
        forall|i: int| 0 <= i < s.len() ==> s[i] == v,
    ensures
        count_le(s, v as int) == s.len(),
    decreases s.len(),
{
    if s.len() > 0 {
        assert(forall|i: int| 0 <= i < s.drop_last().len() ==> s.drop_last()[i] == v);
        lemma_count_le_uniform(s.drop_last(), v);
    }
}

/// A pixel whose cumulative count is `cle` out of `total` pixels is
/// equalized to `cle * 255 / total`, its distribution share scaled
/// to the full 8-bit range.
pub open spec fn equalized(cle: int, total: int) -> int {
    cle * 255 / total
}

/// The level, out of `n`, nearest to equalized value `e`:
/// `round(e/255 * (n-1))`, rounding half up.
pub open spec fn quantize_level(e: int, n: int) -> int {
    (2 * e * (n - 1) + 255) / 510
}

/// Quantize `e` to `n` levels and re-expand the level to 8 bits, so
/// the output shows exactly `n` distinguishable bands.
pub open spec fn requantized(e: int, n: int) -> int {
    quantize_level(e, n) * 255 / (n - 1)
}

/// The whole per-pixel map of the adaptive threshold, as a function
/// of the pixel's cumulative count.
pub open spec fn adaptive_value(cle: int, total: int, n: int) -> int {
    requantized(equalized(cle, total), n)
}

pub proof fn lemma_equalized_range(cle: int, total: int)
    requires
        0 < total,
        0 <= cle <= total,
    ensures
        0 <= equalized(cle, total) <= 255,
{
    lemma_mul_inequality(cle, total, 255);
    lemma_div_is_ordered(cle * 255, total * 255, total);
    lemma_div_multiples_vanish(255, total);
    assert(total * 255 == 255 * total) by (nonlinear_arith);
    lemma_div_pos_is_pos(cle * 255, total);
    lemma_mul_inequality(0, cle, 255);
}

pub proof fn lemma_requantized_range(e: int, n: int)
    requires
        0 <= e <= 255,
        2 <= n,
    ensures
        0 <= quantize_level(e, n) <= n - 1,
        0 <= requantized(e, n) <= 255,
{
    let num = 2 * e * (n - 1) + 255;
    assert(2 * e * (n - 1) <= 510 * (n - 1) && 0 <= 2 * e * (n - 1)) by (nonlinear_arith)
        requires
            0 <= e <= 255,
            2 <= n,
    ;
    lemma_fundamental_div_mod_converse(510 * (n - 1) + 255, 510, n - 1, 255);
    lemma_div_is_ordered(num, 510 * (n - 1) + 255, 510);
    lemma_div_pos_is_pos(num, 510);
    let k = quantize_level(e, n);
    lemma_mul_inequality(k, n - 1, 255);
    lemma_div_is_ordered(k * 255, (n - 1) * 255, n - 1);
    lemma_div_multiples_vanish(255, n - 1);
    assert((n - 1) * 255 == 255 * (n - 1)) by (nonlinear_arith);
    lemma_div_pos_is_pos(k * 255, n - 1);
    lemma_mul_inequality(0, k, 255);
}

/// Law: quantization is a fixed point — re-quantizing an
/// already-quantized 8-bit value at the same level count `n` gives
/// the value back unchanged.
pub proof fn lemma_requantize_fixed_point(e: int, n: int)
    requires
        0 <= e <= 255,
        2 <= n <= 128,
    ensures
        requantized(requantized(e, n), n) == requantized(e, n),
{
    let k = quantize_level(e, n);
    lemma_requantized_range(e, n);
    let q = requantized(e, n);
    lemma_fundamental_div_mod(k * 255, n - 1);
    let r = (k * 255) % (n - 1);
    assert(q == (k * 255) / (n - 1));
    assert(2 * q * (n - 1) + 255 == 510 * k + 255 - 2 * r) by (nonlinear_arith)
        requires
            k * 255 == (n - 1) * q + r,
    ;
    assert(0 <= r < n - 1);
    assert(2 * q * (n - 1) + 255 == k * 510 + (255 - 2 * r));
    lemma_fundamental_div_mod_converse(2 * q * (n - 1) + 255, 510, k, 255 - 2 * r);
    assert(quantize_level(q, n) == k);
}

/// Law: equalizing and quantizing a uniform image sends every pixel
/// to the single level 255, and involves no division by zero.
pub proof fn lemma_uniform_single_level(s: Seq<u8>, v: u8, n: int)
    requires
        s.len() > 0,
        2 <= n,
        forall|i: int| 0 <= i < s.len() ==> s[i] == v,
    ensures
        adaptive_value(count_le(s, v as int), s.len() as int, n) == 255,
{
    let total = s.len() as int;
    lemma_count_le_uniform(s, v);
    lemma_div_multiples_vanish(255, total);
    assert(total * 255 == 255 * total) by (nonlinear_arith);
    assert(equalized(total, total) == 255);
    lemma_fundamental_div_mod_converse(510 * (n - 1) + 255, 510, n - 1, 255);
    assert(2 * 255 * (n - 1) + 255 == 510 * (n - 1) + 255);
    assert(quantize_level(255, n) == n - 1);
    lemma_div_multiples_vanish(255, n - 1);
    assert((n - 1) * 255 == 255 * (n - 1)) by (nonlinear_arith);
    assert(requantized(255, n) == 255);
}

/// The whole per-pixel map as a function of the pixel value within
/// a fixed image.
pub open spec fn adaptive_of(s: Seq<u8>, v: int, n: int) -> int {
    adaptive_value(count_le(s, v), s.len() as int, n)
}

pub proof fn lemma_count_le_mono(s: Seq<u8>, v1: int, v2: int)
    requires
        v1 <= v2,
    ensures
        count_le(s, v1) <= count_le(s, v2),
    decreases s.len(),
{
    if s.len() > 0 {
        lemma_count_le_mono(s.drop_last(), v1, v2);
    }
}

/// The per-pixel map never decreases as the pixel value grows.
pub proof fn lemma_adaptive_monotone(s: Seq<u8>, v1: int, v2: int, n: int)
    requires
        s.len() > 0,
        2 <= n,
        v1 <= v2,
    ensures
        adaptive_of(s, v1, n) <= adaptive_of(s, v2, n),
{
    let total = s.len() as int;
    lemma_count_le_mono(s, v1, v2);
    lemma_counts_bounded(s, v1);
    lemma_counts_bounded(s, v2);
    let c1 = count_le(s, v1);
    let c2 = count_le(s, v2);
    lemma_mul_inequality(c1, c2, 255);
    lemma_div_is_ordered(c1 * 255, c2 * 255, total);
    lemma_equalized_range(c1, total);
    lemma_equalized_range(c2, total);
    let e1 = equalized(c1, total);
    let e2 = equalized(c2, total);
    assert(2 * e1 * (n - 1) <= 2 * e2 * (n - 1)) by (nonlinear_arith)
        requires
            e1 <= e2,
            2 <= n,
    ;
    lemma_div_is_ordered(2 * e1 * (n - 1) + 255, 2 * e2 * (n - 1) + 255, 510);
    lemma_requantized_range(e1, n);
    lemma_requantized_range(e2, n);
    let k1 = quantize_level(e1, n);
    let k2 = quantize_level(e2, n);
    lemma_mul_inequality(k1, k2, 255);
    lemma_div_is_ordered(k1 * 255, k2 * 255, n - 1);
}

/// The largest value not above `v` that the per-pixel map keeps at
/// or below `w`; meaningful only when value 0 already maps that low.
pub open spec fn last_value_below(s: Seq<u8>, n: int, w: int, v: int) -> int
    decreases v,
{
    if v <= 0 {
        0
    } else if adaptive_of(s, v, n) <= w {
        v
    } else {
        last_value_below(s, n, w, v - 1)
    }
}

proof fn lemma_last_value_below(s: Seq<u8>, n: int, w: int, v: int)
    requires
        0 <= v,
        adaptive_of(s, 0, n) <= w,
    ensures
        0 <= last_value_below(s, n, w, v) <= v,
        adaptive_of(s, last_value_below(s, n, w, v), n) <= w,
        forall|x: int|
            last_value_below(s, n, w, v) < x <= v ==> adaptive_of(s, x, n) > w,
    decreases v,
{
    if v > 0 && adaptive_of(s, v, n) > w {
        lemma_last_value_below(s, n, w, v - 1);
    }
}

/// Counting transfer: if `t` is the image of `s` under the
/// per-pixel map, and the values at most `m` are exactly those the
/// map keeps at or below `w`, then the two cumulative counts agree
/// on every prefix. The map reads counts over the whole image, so
/// `s` and `t` stay whole and only the prefix shrinks.
proof fn lemma_count_transfer(s: Seq<u8>, t: Seq<u8>, n: int, w: int, m: int, len: int)
    requires
        s.len() == t.len(),
        0 <= len <= s.len(),
        forall|i: int| 0 <= i < t.len() ==> #[trigger] t[i] as int == adaptive_of(s, s[i] as int, n),
        forall|i: int|
            0 <= i < s.len() ==> ((adaptive_of(s, #[trigger] s[i] as int, n) <= w) <==> s[i] as int
                <= m),
    ensures
        count_le(t.take(len), w) == count_le(s.take(len), m),
    decreases len,
{
    if len > 0 {
        assert(t.take(len).drop_last() =~= t.take(len - 1));
        assert(s.take(len).drop_last() =~= s.take(len - 1));
        assert(t.take(len).last() == t[len - 1]);
        assert(s.take(len).last() == s[len - 1]);
        lemma_count_transfer(s, t, n, w, m, len - 1);
        assert(t[len - 1] as int == adaptive_of(s, s[len - 1] as int, n));
        assert((adaptive_of(s, s[len - 1] as int, n) <= w) <==> s[len - 1] as int <= m);
    }
}

/// Law: the level quantizer is idempotent. Equalizing and
/// quantizing a buffer that was already equalized and quantized at
/// the same level count reproduces it unchanged.
pub proof fn lemma_adaptive_threshold_idempotent(s: Seq<u8>, t: Seq<u8>, u: Seq<u8>, n: int)
    requires
        2 <= n,
        s.len() == t.len(),
        t.len() == u.len(),
        forall|i: int|
            0 <= i < t.len() ==> #[trigger] t[i] as int == adaptive_value(
                count_le(s, s[i] as int),
                s.len() as int,
                n,
            ),
        forall|i: int|
            0 <= i < u.len() ==> #[trigger] u[i] as int == adaptive_value(
                count_le(t, t[i] as int),
                t.len() as int,
                n,
            ),
    ensures
        u == t,
{
    if s.len() == 0 {
        assert(u =~= t);
    } else {
        assert forall|i: int| 0 <= i < u.len() implies u[i] == t[i] by {
            let w = t[i] as int;
            assert(t[i] as int == adaptive_of(s, s[i] as int, n));
            lemma_adaptive_monotone(s, 0, s[i] as int, n);
            lemma_last_value_below(s, n, w, 255);
            let m = last_value_below(s, n, w, 255);
            assert(s[i] as int <= m) by {
                if m < s[i] as int {
                    assert(adaptive_of(s, s[i] as int, n) > w);
                }
            }
            lemma_adaptive_monotone(s, s[i] as int, m, n);
            assert(adaptive_of(s, m, n) == w);
            assert forall|j: int|
                0 <= j < s.len() implies ((adaptive_of(s, #[trigger] s[j] as int, n) <= w)
                <==> s[j] as int <= m) by {
                if s[j] as int <= m {
                    lemma_adaptive_monotone(s, s[j] as int, m, n);
                } else {
                    assert(adaptive_of(s, s[j] as int, n) > w);
                }
            }
            assert(count_le(t, w) == count_le(s, m)) by {
                lemma_count_transfer(s, t, n, w, m, s.len() as int);
                assert(s.take(s.len() as int) =~= s);
                assert(t.take(t.len() as int) =~= t);
            }
            assert(u[i] as int == adaptive_of(s, m, n));
        }
        assert(u =~= t);
    }
}

/// Count how many pixels fall in each of the 256 intensity bins.
fn histogram(pixels: &Vec<u8>) -> (h: Vec<u64>)
    requires
        pixels@.len() <= u64::MAX,
    ensures
        h@.len() == 256,
        forall|v: int| 0 <= v < 256 ==> h@[v] as int == count_eq(pixels@, v),
{
    let mut h: Vec<u64> = Vec::new();
    let mut v: usize = 0;
    while v < 256
        invariant
            0 <= v <= 256,
            h@.len() == v,
            forall|u: int| 0 <= u < v ==> h@[u] == 0,
        decreases 256 - v,
    {
        h.push(0);
        v += 1;
    }
    proof {
        assert(pixels@.take(0) =~= Seq::<u8>::empty());
    }
    let n = pixels.len();
    let mut i: usize = 0;
    while i < n
        invariant
            n == pixels@.len(),
            n <= u64::MAX,
            0 <= i <= n,
            h@.len() == 256,
            forall|u: int| 0 <= u < 256 ==> h@[u] as int == count_eq(pixels@.take(i as int), u),
        decreases n - i,
    {
        let p = pixels[i] as usize;
        proof {
            lemma_counts_bounded(pixels@.take(i as int), p as int);
            assert(pixels@.take(i as int).len() == i);
            assert forall|u: int| 0 <= u < 256 implies count_eq(pixels@.take(i as int + 1), u)
                == count_eq(pixels@.take(i as int), u) + (if pixels@[i as int] as int == u {
                1int
            } else {
                0int
            }) by {
                assert(pixels@.take(i as int + 1).drop_last() =~= pixels@.take(i as int));
                assert(pixels@.take(i as int + 1).last() == pixels@[i as int]);
            }
        }
        let cur = h[p];
        h[p] = cur + 1;
        i += 1;
    }
    proof {
        assert(pixels@.take(n as int) =~= pixels@);
    }
    h
}

/// Cumulative counts over the 256 bins: entry `v` counts the pixels
/// with intensity at most `v`.
fn cdf_counts(pixels: &Vec<u8>) -> (c: Vec<u64>)
    requires
        pixels@.len() <= u64::MAX,
    ensures
        c@.len() == 256,
        forall|v: int| 0 <= v < 256 ==> c@[v] as int == count_le(pixels@, v),
{
    let h = histogram(pixels);
    let mut c: Vec<u64> = Vec::new();
    proof {
        lemma_count_le_step(pixels@, 0);
        lemma_counts_negative(pixels@, -1);
        lemma_counts_bounded(pixels@, 0);
    }
    c.push(h[0]);
    let mut v: usize = 1;
    while v < 256
        invariant
            1 <= v <= 256,
            c@.len() == v,
            h@.len() == 256,
            pixels@.len() <= u64::MAX,
            forall|u: int| 0 <= u < 256 ==> h@[u] as int == count_eq(pixels@, u),
            forall|u: int| 0 <= u < v ==> c@[u] as int == count_le(pixels@, u),
        decreases 256 - v,
    {
        proof {
            lemma_count_le_step(pixels@, v as int);
            lemma_counts_bounded(pixels@, v as int);
        }
        let prev = c[v - 1];
        c.push(prev + h[v]);
        v += 1;
    }
    c
}

/// No byte is below zero, so cumulative counts below bin 0 are
/// empty.
proof fn lemma_counts_negative(s: Seq<u8>, v: int)
    requires
        v < 0,
    ensures
        count_le(s, v) == 0,
    decreases s.len(),
{
    if s.len() > 0 {
        lemma_counts_negative(s.drop_last(), v);
    }
}

/// Adaptive threshold: equalize the image through its own cumulative
/// distribution, then quantize every pixel to `levels` bands.
pub fn adaptive_threshold(img: &GrayRaster, levels: usize) -> (r: GrayRaster)
    requires
        img.wf(),
        2 <= levels <= 256,
    ensures
        r.wf(),
        r.width == img.width,
        r.height == img.height,
        r.pixels@.len() == img.pixels@.len(),
        forall|i: int|
            0 <= i < img.pixels@.len() ==> r.pixels@[i] as int == adaptive_value(
                count_le(img.pixels@, img.pixels@[i] as int),
                img.pixels@.len() as int,
                levels as int,
            ),
{
    let n = img.pixels.len();
    proof {
        assert(usize::MAX <= u64::MAX);
    }
    let c = cdf_counts(&img.pixels);
    let total = n as u64;
    let n1 = (levels - 1) as u64;
    let mut out: Vec<u8> = Vec::new();
    let mut i: usize = 0;
    while i < n
        invariant
            n == img.pixels@.len(),
            n <= u64::MAX,
            total == n,
            2 <= levels <= 256,
            n1 == levels - 1,
            c@.len() == 256,
            forall|v: int| 0 <= v < 256 ==> c@[v] as int == count_le(img.pixels@, v),
            0 <= i <= n,
            out@.len() == i,
            forall|j: int|
                0 <= j < i ==> out@[j] as int == adaptive_value(
                    count_le(img.pixels@, img.pixels@[j] as int),
                    img.pixels@.len() as int,
                    levels as int,
                ),
        decreases n - i,
    {
        let p = img.pixels[i];
        let cle = c[p as usize];
        proof {
            lemma_counts_bounded(img.pixels@, p as int);
            lemma_equalized_range(cle as int, total as int);
        }
        let eq = ((cle as u128 * 255) / (total as u128)) as u64;
        proof {
            lemma_requantized_range(eq as int, levels as int);
        }
        let level = (2 * eq * n1 + 255) / 510;
        let q = (level * 255) / n1;
        out.push(q as u8);
        i += 1;
    }
    GrayRaster { width: img.width, height: img.height, pixels: out }
}

} // verus!
