//! Glyph mapper: perceptual intensity-to-character-index scaling.
//!
//! An 8-bit intensity is normalized to [0,1], gamma-corrected with
//! exponent 0.7 to darken midtones, scaled by the number of glyphs
//! minus one, and rounded to the nearest index. The exponent 7/10 is
//! rational, so rounding can be decided exactly in integers: the real
//! index `z = (n-1) * (v/255)^(7/10)` satisfies `z >= k + 1/2` if and
//! only if `(2z)^10 >= (2k+1)^10`, and `(2z)^10` is the rational
//! `1024 * (n-1)^10 * v^7 / 255^7`.

use vstd::prelude::*;
use vstd::arithmetic::mul::lemma_mul_nonnegative;
use vstd::arithmetic::mul::lemma_mul_upper_bound;

verus! {

/// Seventh power.
pub open spec fn pow7(x: int) -> int {
    x * x * x * x * x * x * x
}

/// Tenth power.
pub open spec fn pow10(x: int) -> int {
    x * x * x * x * x * x * x * x * x * x
}

/// Whether the real-valued glyph position `(n-1) * (v/255)^(7/10)`
/// of intensity `v` among `n` glyphs is at least `k + 1/2`, so that
/// rounding sends it past index `k`. Doubling both sides and raising
/// them to the 10th power clears the fraction and the root.
pub open spec fn reaches(v: int, n: int, k: int) -> bool {
    1024 * pow10(n - 1) * pow7(v) >= pow10(2 * k + 1) * pow7(255)
}

pub open spec fn glyph_index_from(v: int, n: int, k: int) -> int
    decreases n - 1 - k,
{
    if k >= n - 1 {
        n - 1
    } else if reaches(v, n, k) {
        glyph_index_from(v, n, k + 1)
    } else {
        k
    }
}

/// The glyph index selected for intensity `v` among `n` glyphs:
/// `round((v/255)^0.7 * (n-1))`, clamped to `[0, n-1]`. Intensity 0
/// always selects index 0, the sparsest glyph.
pub open spec fn glyph_index(v: int, n: int) -> int {
    glyph_index_from(v, n, 0)
}

pub proof fn lemma_glyph_index_from_bounds(v: int, n: int, k: int)
    requires
        0 <= k <= n - 1,
    ensures
        k <= glyph_index_from(v, n, k) <= n - 1,
    decreases n - 1 - k,
{
    if k < n - 1 && reaches(v, n, k) {
        lemma_glyph_index_from_bounds(v, n, k + 1);
    }
}

/// The selected index always lies within the glyph set.
pub proof fn lemma_glyph_index_bounds(v: int, n: int)
    requires
        2 <= n,
    ensures
        0 <= glyph_index(v, n) <= n - 1,
{
    lemma_glyph_index_from_bounds(v, n, 0);
}

/// Powers with nonnegative base are monotone in the base.
pub proof fn lemma_pow_mono(a: int, b: int)
    requires
        0 <= a <= b,
    ensures
        pow7(a) <= pow7(b),
        pow10(a) <= pow10(b),
        0 <= pow7(a),
        0 <= pow10(a),
{
    lemma_mul_nonnegative(a, a);
    lemma_mul_upper_bound(a, b, a, b);
    lemma_mul_nonnegative(a * a, a);
    lemma_mul_upper_bound(a * a, b * b, a, b);
    lemma_mul_nonnegative(a * a * a, a);
    lemma_mul_upper_bound(a * a * a, b * b * b, a, b);
    lemma_mul_nonnegative(a * a * a * a, a);
    lemma_mul_upper_bound(a * a * a * a, b * b * b * b, a, b);
    lemma_mul_nonnegative(a * a * a * a * a, a);
    lemma_mul_upper_bound(a * a * a * a * a, b * b * b * b * b, a, b);
    lemma_mul_nonnegative(a * a * a * a * a * a, a);
    lemma_mul_upper_bound(a * a * a * a * a * a, b * b * b * b * b * b, a, b);
    lemma_mul_nonnegative(a * a * a * a * a * a * a, a);
    lemma_mul_upper_bound(a * a * a * a * a * a * a, b * b * b * b * b * b * b, a, b);
    lemma_mul_nonnegative(a * a * a * a * a * a * a * a, a);
    lemma_mul_upper_bound(a * a * a * a * a * a * a * a, b * b * b * b * b * b * b * b, a, b);
    lemma_mul_nonnegative(a * a * a * a * a * a * a * a * a, a);
    lemma_mul_upper_bound(
        a * a * a * a * a * a * a * a * a,
        b * b * b * b * b * b * b * b * b,
        a,
        b,
    );
}

proof fn lemma_glyph_index_from_mono(a: int, b: int, n: int, k: int)
    requires
        0 <= a <= b,
        2 <= n,
        0 <= k <= n - 1,
    ensures
        glyph_index_from(a, n, k) <= glyph_index_from(b, n, k),
    decreases n - 1 - k,
{
    if k >= n - 1 {
    } else if reaches(a, n, k) {
        lemma_pow_mono(a, b);
        lemma_pow_mono(0, n - 1);
        assert(1024 * pow10(n - 1) * pow7(a) <= 1024 * pow10(n - 1) * pow7(b))
            by (nonlinear_arith)
            requires
                pow7(a) <= pow7(b),
                0 <= pow10(n - 1),
        ;
        lemma_glyph_index_from_mono(a, b, n, k + 1);
    } else {
        lemma_glyph_index_from_bounds(b, n, k);
    }
}

/// Monotonicity law: the glyph mapping is non-decreasing, so a
/// brighter intensity never selects a sparser glyph.
pub proof fn lemma_glyph_index_monotonic(a: int, b: int, n: int)
    requires
        0 <= a <= b,
        2 <= n,
    ensures
        glyph_index(a, n) <= glyph_index(b, n),
{
    lemma_glyph_index_from_mono(a, b, n, 0);
}

/// Compute the seventh power of a byte-sized value.
fn pow7_exec(x: u128) -> (r: u128)
    requires
        x <= 255,
    ensures
        r as int == pow7(x as int),
{
    proof {
        assert(x as int * x as int <= 65025 && x as int * x as int >= 0) by (nonlinear_arith)
            requires
                0 <= x as int <= 255,
        ;
    }
    let x2 = x * x;
    proof {
        assert(x2 as int * x as int <= 16581375 && x2 as int * x as int >= 0) by (nonlinear_arith)
            requires
                0 <= x2 as int <= 65025,
                0 <= x as int <= 255,
        ;
    }
    let x3 = x2 * x;
    proof {
        assert(x3 as int * x as int <= 4228250625 && x3 as int * x as int >= 0) by (nonlinear_arith)
            requires
                0 <= x3 as int <= 16581375,
                0 <= x as int <= 255,
        ;
    }
    let x4 = x3 * x;
    proof {
        assert(x4 as int * x as int <= 1078203909375 && x4 as int * x as int >= 0)
            by (nonlinear_arith)
            requires
                0 <= x4 as int <= 4228250625,
                0 <= x as int <= 255,
        ;
    }
    let x5 = x4 * x;
    proof {
        assert(x5 as int * x as int <= 274941996890625 && x5 as int * x as int >= 0)
            by (nonlinear_arith)
            requires
                0 <= x5 as int <= 1078203909375,
                0 <= x as int <= 255,
        ;
    }
    let x6 = x5 * x;
    proof {
        assert(x6 as int * x as int <= 70110209207109375 && x6 as int * x as int >= 0)
            by (nonlinear_arith)
            requires
                0 <= x6 as int <= 274941996890625,
                0 <= x as int <= 255,
        ;
    }
    x6 * x
}

/// Compute the tenth power of a value at most 135.
fn pow10_exec(x: u128) -> (r: u128)
    requires
        x <= 135,
    ensures
        r as int == pow10(x as int),
{
    proof {
        assert(x as int * x as int <= 18225 && x as int * x as int >= 0) by (nonlinear_arith)
            requires
                0 <= x as int <= 135,
        ;
    }
    let x2 = x * x;
    proof {
        assert(x2 as int * x as int <= 2460375 && x2 as int * x as int >= 0) by (nonlinear_arith)
            requires
                0 <= x2 as int <= 18225,
                0 <= x as int <= 135,
        ;
    }
    let x3 = x2 * x;
    proof {
        assert(x3 as int * x as int <= 332150625 && x3 as int * x as int >= 0) by (nonlinear_arith)
            requires
                0 <= x3 as int <= 2460375,
                0 <= x as int <= 135,
        ;
    }
    let x4 = x3 * x;
    proof {
        assert(x4 as int * x as int <= 44840334375 && x4 as int * x as int >= 0)
            by (nonlinear_arith)
            requires
                0 <= x4 as int <= 332150625,
                0 <= x as int <= 135,
        ;
    }
    let x5 = x4 * x;
    proof {
        assert(x5 as int * x as int <= 6053445140625 && x5 as int * x as int >= 0)
            by (nonlinear_arith)
            requires
                0 <= x5 as int <= 44840334375,
                0 <= x as int <= 135,
        ;
    }
    let x6 = x5 * x;
    proof {
        assert(x6 as int * x as int <= 817215093984375 && x6 as int * x as int >= 0)
            by (nonlinear_arith)
            requires
                0 <= x6 as int <= 6053445140625,
                0 <= x as int <= 135,
        ;
    }
    let x7 = x6 * x;
    proof {
        assert(x7 as int * x as int <= 110324037687890625 && x7 as int * x as int >= 0)
            by (nonlinear_arith)
            requires
                0 <= x7 as int <= 817215093984375,
                0 <= x as int <= 135,
        ;
    }
    let x8 = x7 * x;
    proof {
        assert(x8 as int * x as int <= 14893745087865234375 && x8 as int * x as int >= 0)
            by (nonlinear_arith)
            requires
                0 <= x8 as int <= 110324037687890625,
                0 <= x as int <= 135,
        ;
    }
    let x9 = x8 * x;
    proof {
        assert(x9 as int * x as int <= 2010655586861806640625 && x9 as int * x as int >= 0)
            by (nonlinear_arith)
            requires
                0 <= x9 as int <= 14893745087865234375,
                0 <= x as int <= 135,
        ;
    }
    x9 * x
}

/// Map an intensity to a character index by gamma-weighted
/// perceptual scaling: `round((intensity/255)^0.7 * (char_count-1))`
/// clamped to the glyph range.
pub fn map_intensity(intensity: u8, char_count: usize) -> (r: usize)
    requires
        2 <= char_count <= 69,
    ensures
        r as int == glyph_index(intensity as int, char_count as int),
        r < char_count,
{
    let v7 = pow7_exec(intensity as u128);
    let n110 = pow10_exec((char_count - 1) as u128);
    let r7 = pow7_exec(255);
    proof {
        lemma_pow_mono(intensity as int, 255);
        lemma_pow_mono(char_count as int - 1, 68);
        assert(1024 * n110 as int <= 1024 * 2113922820157210624) by (nonlinear_arith)
            requires
                0 <= n110 as int <= 2113922820157210624,
        ;
        assert((1024 * n110 as int) * v7 as int <= 151764552876958396197537495121920000000
            && (1024 * n110 as int) * v7 as int >= 0) by (nonlinear_arith)
            requires
                0 <= 1024 * n110 as int <= 1024 * 2113922820157210624,
                0 <= v7 as int <= 70110209207109375,
        ;
    }
    let lhs = 1024 * n110 * v7;
    let mut k: usize = 0;
    let mut scanning = true;
    while scanning && k < char_count - 1
        invariant
            2 <= char_count <= 69,
            0 <= k <= char_count - 1,
            v7 as int == pow7(intensity as int),
            n110 as int == pow10(char_count as int - 1),
            r7 as int == pow7(255),
            lhs as int == 1024 * pow10(char_count as int - 1) * pow7(intensity as int),
            scanning ==> glyph_index(intensity as int, char_count as int) == glyph_index_from(
                intensity as int,
                char_count as int,
                k as int,
            ),
            !scanning ==> glyph_index(intensity as int, char_count as int) == k as int,
        decreases char_count - k, (if scanning { 1int } else { 0int }),
    {
        let m = 2 * k + 1;
        let t10 = pow10_exec(m as u128);
        proof {
            lemma_pow_mono(m as int, 135);
            assert(t10 as int * r7 as int <= 140967483838324539627013625335693359375 && t10 as int
                * r7 as int >= 0) by (nonlinear_arith)
                requires
                    0 <= t10 as int <= 2010655586861806640625,
                    0 <= r7 as int <= 70110209207109375,
            ;
        }
        let t = t10 * r7;
        if lhs >= t {
            k += 1;
        } else {
            scanning = false;
        }
    }
    proof {
        lemma_glyph_index_bounds(intensity as int, char_count as int);
    }
    k
}

} // verus!
