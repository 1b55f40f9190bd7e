//! Pipeline orchestration: resample, adjust tone, reduce to
//! luminance, denoise, quantize, and map intensities to glyphs.

use vstd::prelude::*;
use vstd::arithmetic::div_mod::lemma_fundamental_div_mod_converse;
use crate::blur::gaussian_blur;
use crate::config::lemma_char_set_facts;
use crate::config::spec_char_set;
use crate::config::ConversionConfig;
use crate::contrast::enhance_contrast;
use crate::entities::count_char;
use crate::entities::spec_first_line_len;
use crate::entities::spec_line_count;
use crate::entities::ImageData;
use crate::glyph::glyph_index;
use crate::glyph::lemma_glyph_index_bounds;
use crate::glyph::map_intensity;
use crate::contrast::adjusted_channel;
use crate::imaging::decode_rgb;
use crate::imaging::decoded_image;
use crate::imaging::luma_value;
use crate::imaging::resampled;
use crate::imaging::resize_rgb;
use crate::imaging::rgb_to_luma;
use crate::blur::blurred;
use crate::quantize::adaptive_threshold;
use crate::quantize::adaptive_value;
use crate::quantize::count_le;
use crate::raster::GrayRaster;
use crate::raster::RgbRaster;

verus! {

/// Why a conversion failed.
#[derive(Debug)]
pub enum ConversionError {
    /// The input bytes are not a recognizable image.
    ImageDecodeError(String),
    /// The image's shape cannot be processed (a zero dimension, or a
    /// glyph grid too tall to address).
    InvalidImageData,
}

impl ConversionError {
    /// The error's message, as a caller would report it.
    pub fn message(&self) -> (r: String)
        ensures
            self is ImageDecodeError ==> r@ == "Failed to decode image: "@
                + self->ImageDecodeError_0@,
            self is InvalidImageData ==> r@ == "Invalid image data"@,
    {
        match self {
            ConversionError::ImageDecodeError(m) => String::from_str(
                "Failed to decode image: ",
            ).concat(m.as_str()),
            ConversionError::InvalidImageData => String::from_str("Invalid image data"),
        }
    }
}

/// Target glyph-grid height for a `w` x `h` source resampled to
/// width `tw`: `round(tw * (h/w) * 0.43)`, clamped to at least one
/// row. The factor compensates for glyph cells being taller than
/// they are wide.
pub open spec fn target_height(w: int, h: int, tw: int) -> int {
    let raw = (86 * tw * h + 100 * w) / (200 * w);
    if raw < 1 {
        1
    } else {
        raw
    }
}

/// The rendered text for a quantized `w` x `h` buffer: row-major
/// glyphs, each row except the last terminated by a line break.
pub open spec fn rendered(p: Seq<u8>, w: int, h: int, g: Seq<char>) -> Seq<char> {
    Seq::new(
        (h * (w + 1) - 1) as nat,
        |i: int|
            if i % (w + 1) == w {
                '\n'
            } else {
                g[glyph_index(p[(i / (w + 1)) * w + i % (w + 1)] as int, g.len() as int)]
            },
    )
}

/// The character of `text`, read as a glyph grid of width `w`, at
/// `row` and `col`; column `w` is the row's separator position.
pub open spec fn grid_char(text: Seq<char>, w: int, row: int, col: int) -> char {
    text[row * (w + 1) + col]
}

/// A text laid out as a glyph grid: `th` rows, each of exactly `w`
/// glyphs from the set `g` (none of them a line break), consecutive
/// rows separated by single line breaks.
pub open spec fn glyph_grid_shaped(text: Seq<char>, w: int, g: Seq<char>, th: int) -> bool {
    &&& 1 <= th
    &&& text.len() == th * (w + 1) - 1
    &&& forall|row: int, col: int|
        0 <= row < th && 0 <= col < w ==> #[trigger] grid_char(text, w, row, col) != '\n'
            && g.contains(grid_char(text, w, row, col))
    &&& forall|row: int| 0 <= row < th - 1 ==> #[trigger] grid_char(text, w, row, w) == '\n'
}

/// The text the verified stages produce from a resampled `w` x `h`
/// color buffer: the contrast transform on every channel, the sRGB
/// luminance of every pixel, the separable blur (skipped for sigma
/// zero), histogram equalization quantized to the glyph count, and
/// row-major glyph rendering.
pub open spec fn pipeline_text(
    resized: Seq<u8>,
    w: int,
    h: int,
    contrast: int,
    sigma: int,
    g: Seq<char>,
) -> Seq<char> {
    let contrasted = Seq::new(
        resized.len(),
        |i: int| adjusted_channel(resized[i] as int, contrast) as u8,
    );
    let gray = Seq::new(
        (w * h) as nat,
        |i: int| luma_value(contrasted[3 * i], contrasted[3 * i + 1], contrasted[3 * i + 2]),
    );
    let smoothed = if sigma == 0 {
        gray
    } else {
        blurred(gray, w, h, sigma)
    };
    let processed = Seq::new(
        (w * h) as nat,
        |i: int|
            adaptive_value(
                count_le(smoothed, smoothed[i] as int),
                smoothed.len() as int,
                g.len() as int,
            ) as u8,
    );
    rendered(processed, w, h, g)
}

/// Shape law: the rendered text has exactly `h` rows; every row
/// holds exactly `w` glyphs from the glyph set, none of them a line
/// break, and single line breaks separate consecutive rows.
pub proof fn lemma_rendered_shape(p: Seq<u8>, w: int, h: int, g: Seq<char>)
    requires
        w >= 1,
        h >= 1,
        p.len() == w * h,
        2 <= g.len() <= 69,
        forall|i: int| 0 <= i < g.len() ==> g[i] != '\n',
    ensures
        glyph_grid_shaped(rendered(p, w, h, g), w, g, h),
{
    let text = rendered(p, w, h, g);
    assert(h * (w + 1) - 1 >= w) by (nonlinear_arith)
        requires
            w >= 1,
            h >= 1,
    ;
    assert forall|r: int, c: int| 0 <= r < h && 0 <= c < w implies #[trigger] grid_char(
        text,
        w,
        r,
        c,
    ) != '\n' && g.contains(grid_char(text, w, r, c)) by {
        let i = r * (w + 1) + c;
        assert(0 <= i && i < h * (w + 1) - 1) by (nonlinear_arith)
            requires
                0 <= r < h,
                0 <= c < w,
                i == r * (w + 1) + c,
        ;
        lemma_fundamental_div_mod_converse(i, w + 1, r, c);
        assert(0 <= r * w + c && r * w + c < w * h) by (nonlinear_arith)
            requires
                0 <= r < h,
                0 <= c < w,
        ;
        lemma_glyph_index_bounds(p[r * w + c] as int, g.len() as int);
        assert(text[i] == g[glyph_index(p[r * w + c] as int, g.len() as int)]);
    }
    assert forall|r: int| 0 <= r < h - 1 implies #[trigger] grid_char(text, w, r, w) == '\n' by {
        let i = r * (w + 1) + w;
        assert(0 <= i && i < h * (w + 1) - 1) by (nonlinear_arith)
            requires
                0 <= r < h - 1,
                1 <= w,
                i == r * (w + 1) + w,
        ;
        lemma_fundamental_div_mod_converse(i, w + 1, r, w);
    }
}

/// A text without the counted character counts zero of it.
proof fn lemma_count_char_absent(s: Seq<char>, c: char)
    requires
        forall|i: int| 0 <= i < s.len() ==> s[i] != c,
    ensures
        count_char(s, c) == 0,
    decreases s.len(),
{
    if s.len() > 0 {
        assert(forall|i: int| 0 <= i < s.drop_last().len() ==> s.drop_last()[i] != c);
        lemma_count_char_absent(s.drop_last(), c);
    }
}

/// Character counts add over concatenation.
proof fn lemma_count_char_add(s: Seq<char>, t: Seq<char>, c: char)
    ensures
        count_char(s + t, c) == count_char(s, c) + count_char(t, c),
    decreases t.len(),
{
    if t.len() == 0 {
        assert(s + t =~= s);
    } else {
        assert((s + t).drop_last() =~= s + t.drop_last());
        assert((s + t).last() == t.last());
        lemma_count_char_add(s, t.drop_last(), c);
    }
}

/// A glyph grid of `th` rows holds exactly `th - 1` line breaks.
proof fn lemma_shaped_newline_count(text: Seq<char>, w: int, g: Seq<char>, th: int)
    requires
        w >= 1,
        glyph_grid_shaped(text, w, g, th),
    ensures
        count_char(text, '\n') == th - 1,
    decreases th,
{
    if th == 1 {
        assert(text.len() == w) by (nonlinear_arith)
            requires
                th == 1,
                text.len() == th * (w + 1) - 1,
        ;
        assert forall|i: int| 0 <= i < text.len() implies text[i] != '\n' by {
            assert(grid_char(text, w, 0, i) != '\n');
            assert(0 * (w + 1) + i == i);
        }
        lemma_count_char_absent(text, '\n');
    } else {
        let cut = (th - 1) * (w + 1) - 1;
        assert(w <= cut && cut + (w + 1) == th * (w + 1) - 1) by (nonlinear_arith)
            requires
                w >= 1,
                th >= 2,
                cut == (th - 1) * (w + 1) - 1,
        ;
        let prefix = text.take(cut);
        let rest = text.skip(cut);
        assert(text =~= prefix + rest);
        assert(glyph_grid_shaped(prefix, w, g, th - 1)) by {
            assert forall|row: int, col: int| 0 <= row < th - 1 && 0 <= col < w implies #[trigger] grid_char(
                prefix,
                w,
                row,
                col,
            ) != '\n' && g.contains(grid_char(prefix, w, row, col)) by {
                assert(0 <= row * (w + 1) + col && row * (w + 1) + col < cut) by (nonlinear_arith)
                    requires
                        0 <= row < th - 1,
                        0 <= col < w,
                        cut == (th - 1) * (w + 1) - 1,
                ;
                assert(grid_char(prefix, w, row, col) == grid_char(text, w, row, col));
                assert(grid_char(text, w, row, col) != '\n' && g.contains(
                    grid_char(text, w, row, col),
                ));
            }
            assert forall|row: int| 0 <= row < th - 2 implies #[trigger] grid_char(
                prefix,
                w,
                row,
                w,
            ) == '\n' by {
                assert(0 <= row * (w + 1) + w && row * (w + 1) + w < cut) by (nonlinear_arith)
                    requires
                        0 <= row < th - 2,
                        1 <= w,
                        cut == (th - 1) * (w + 1) - 1,
                ;
                assert(grid_char(prefix, w, row, w) == grid_char(text, w, row, w));
                assert(grid_char(text, w, row, w) == '\n');
            }
        }
        lemma_shaped_newline_count(prefix, w, g, th - 1);
        assert(rest.len() == w + 1);
        assert(rest[0] == grid_char(text, w, th - 2, w) && grid_char(text, w, th - 2, w) == '\n')
            by {
            assert(cut == (th - 2) * (w + 1) + w) by (nonlinear_arith)
                requires
                    cut == (th - 1) * (w + 1) - 1,
            ;
        }
        let tail = rest.skip(1);
        assert forall|j: int| 0 <= j < tail.len() implies tail[j] != '\n' by {
            assert(tail[j] == text[cut + 1 + j]);
            assert(cut + 1 + j == (th - 1) * (w + 1) + j) by (nonlinear_arith)
                requires
                    cut == (th - 1) * (w + 1) - 1,
            ;
            assert(grid_char(text, w, th - 1, j) != '\n');
        }
        lemma_count_char_absent(tail, '\n');
        assert(rest =~= rest.take(1) + tail);
        lemma_count_char_add(rest.take(1), tail, '\n');
        assert(count_char(rest.take(1), '\n') == 1) by {
            assert(rest[0] == '\n');
            assert(rest.take(1).len() == 1);
            assert(rest.take(1).last() == rest[0]);
            assert(rest.take(1).drop_last() =~= Seq::<char>::empty());
            assert(count_char(Seq::<char>::empty(), '\n') == 0);
        }
        lemma_count_char_add(prefix, rest, '\n');
    }
}

/// The first line of a text runs to the first line break, or to the
/// end if there is none.
proof fn lemma_first_line_boundary(s: Seq<char>, k: int)
    requires
        0 <= k <= s.len(),
        forall|j: int| 0 <= j < k ==> s[j] != '\n',
        k == s.len() || s[k] == '\n',
    ensures
        spec_first_line_len(s) == k,
    decreases k,
{
    if k == 0 {
    } else {
        assert(s[0] != '\n');
        let t = s.skip(1);
        assert(forall|j: int| 0 <= j < k - 1 ==> t[j] == s[j + 1]);
        lemma_first_line_boundary(t, k - 1);
    }
}

/// Measuring law: a glyph grid of `th` rows of `w` glyphs reads back
/// as `th` lines whose first line holds `w` characters.
pub proof fn lemma_shaped_text_measures(text: Seq<char>, w: int, g: Seq<char>, th: int)
    requires
        w >= 1,
        glyph_grid_shaped(text, w, g, th),
    ensures
        spec_line_count(text) == th,
        spec_first_line_len(text) == w,
{
    assert(w <= th * (w + 1) - 1) by (nonlinear_arith)
        requires
            w >= 1,
            th >= 1,
    ;
    lemma_shaped_newline_count(text, w, g, th);
    assert(text.last() == grid_char(text, w, th - 1, w - 1) && grid_char(text, w, th - 1, w - 1)
        != '\n') by {
        assert(th * (w + 1) - 2 == (th - 1) * (w + 1) + (w - 1)) by (nonlinear_arith);
        assert(grid_char(text, w, th - 1, w - 1) != '\n');
    }
    assert forall|j: int| 0 <= j < w implies text[j] != '\n' by {
        assert(grid_char(text, w, 0, j) != '\n');
        assert(0 * (w + 1) + j == j);
    }
    if th == 1 {
        assert(text.len() == w) by (nonlinear_arith)
            requires
                th == 1,
                text.len() == th * (w + 1) - 1,
        ;
        lemma_first_line_boundary(text, w);
    } else {
        assert(text[w] == '\n') by {
            assert(grid_char(text, w, 0, w) == '\n');
            assert(0 * (w + 1) + w == w);
        }
        lemma_first_line_boundary(text, w);
    }
}

/// Relies on std's `String::push`: appends exactly one character.
#[verifier::external_body]
fn push_char(s: &mut String, c: char)
    ensures
        final(s)@ == old(s)@.push(c),
{
    s.push(c);
}

/// Emit one glyph per pixel, row by row.
fn render(img: &GrayRaster, glyphs: &str) -> (r: String)
    requires
        img.wf(),
        img.width >= 1,
        img.height >= 1,
        2 <= glyphs@.len() <= 69,
    ensures
        r@ == rendered(img.pixels@, img.width as int, img.height as int, glyphs@),
{
    let w = img.width;
    let h = img.height;
    let n = img.pixels.len();
    let glyph_count = glyphs.unicode_len();
    let ghost full = rendered(img.pixels@, w as int, h as int, glyphs@);
    proof {
        assert((h as int) * (w as int + 1) - 1 >= w as int) by (nonlinear_arith)
            requires
                1 <= (w as int),
                1 <= (h as int),
        ;
        assert(full.len() == (h as int) * (w as int + 1) - 1);
    }
    let mut out = String::new();
    let mut y: usize = 0;
    while y < h
        invariant
            img.wf(),
            n == img.pixels@.len(),
            w == img.width,
            h == img.height,
            1 <= w,
            1 <= h,
            2 <= glyph_count == glyphs@.len() <= 69,
            full == rendered(img.pixels@, w as int, h as int, glyphs@),
            full.len() == (h as int) * (w as int + 1) - 1,
            0 <= y <= h,
            y < h ==> out@ == full.take((y as int) * (w as int + 1)),
            y == h ==> out@ == full,
        decreases h - y,
    {
        proof {
            assert((y as int) * (w as int + 1) <= full.len()) by (nonlinear_arith)
                requires
                    0 <= (y as int) < (h as int),
                    1 <= (w as int),
                    full.len() == (h as int) * (w as int + 1) - 1,
            ;
        }
        let mut x: usize = 0;
        while x < w
            invariant
                img.wf(),
                n == img.pixels@.len(),
                w == img.width,
                h == img.height,
                1 <= w,
                1 <= h,
                2 <= glyph_count == glyphs@.len() <= 69,
                full == rendered(img.pixels@, w as int, h as int, glyphs@),
                full.len() == (h as int) * (w as int + 1) - 1,
                0 <= y < h,
                0 <= x <= w,
                out@.len() == (y as int) * (w as int + 1) + x as int,
                out@ == full.take((y as int) * (w as int + 1) + x as int),
            decreases w - x,
        {
            proof {
                assert(0 <= (y as int) * (w as int) + (x as int) && (y as int) * (w as int)
                    + (x as int) < (w as int) * (h as int)) by (nonlinear_arith)
                    requires
                        0 <= (y as int) < (h as int),
                        0 <= (x as int) < (w as int),
                ;
            }
            let p = img.pixels[y * w + x];
            let idx = map_intensity(p, glyph_count);
            let ch = glyphs.get_char(idx);
            push_char(&mut out, ch);
            proof {
                let i = (y as int) * (w as int + 1) + x as int;
                assert(0 <= i && i + 1 <= (y as int) * (w as int + 1) + (w as int) && (y as int)
                    * (w as int + 1) + (w as int) < full.len() + 1) by (nonlinear_arith)
                    requires
                        0 <= (y as int) < (h as int),
                        0 <= (x as int) < (w as int),
                        full.len() == (h as int) * (w as int + 1) - 1,
                        i == (y as int) * (w as int + 1) + (x as int),
                ;
                lemma_fundamental_div_mod_converse(i, w as int + 1, y as int, x as int);
                assert(full[i] == ch);
                assert(out@ =~= full.take(i + 1));
            }
            x += 1;
        }
        if y < h - 1 {
            push_char(&mut out, '\n');
            proof {
                let i = (y as int) * (w as int + 1) + w as int;
                assert(i + 1 == (y as int + 1) * (w as int + 1) && i < full.len())
                    by (nonlinear_arith)
                    requires
                        0 <= (y as int) < (h as int) - 1,
                        1 <= (w as int),
                        full.len() == (h as int) * (w as int + 1) - 1,
                        i == (y as int) * (w as int + 1) + w as int,
                ;
                lemma_fundamental_div_mod_converse(i, w as int + 1, y as int, w as int);
                assert(full[i] == '\n');
                assert(out@ =~= full.take(i + 1));
            }
        } else {
            proof {
                assert((y as int) * (w as int + 1) + w as int == (h as int) * (w as int + 1) - 1)
                    by (nonlinear_arith)
                    requires
                        y as int == h as int - 1,
                ;
                assert(out@ =~= full);
            }
        }
        y += 1;
    }
    out
}

/// Service for converting images to ASCII art. The pipeline holds no
/// state; the service is a zero-field strategy object.
pub struct AsciiConversionService;

impl AsciiConversionService {
    /// Create a new ASCII conversion service.
    pub fn new() -> Self {
        Self
    }

    /// Map an intensity value to a glyph index using perceptual
    /// gamma weighting.
    pub fn map_intensity_to_char(&self, intensity: u8, char_count: usize) -> (r: usize)
        requires
            2 <= char_count <= 69,
        ensures
            r as int == glyph_index(intensity as int, char_count as int),
            r < char_count,
    {
        map_intensity(intensity, char_count)
    }

    /// Convert a decoded RGB raster to ASCII art: resample to the
    /// glyph grid, stretch contrast, reduce to luminance, denoise,
    /// quantize to the glyph count, and emit glyphs row by row.
    ///
    /// Fails only when the computed glyph grid is too tall to
    /// address; the text otherwise has exactly the target height's
    /// rows of exactly the configured width.
    pub fn convert_image_to_ascii(&self, img: &RgbRaster, config: &ConversionConfig) -> (r: Result<
        String,
        ConversionError,
    >)
        requires
            img.wf(),
            1 <= img.width <= u32::MAX,
            1 <= img.height <= u32::MAX,
            config.valid(),
        ensures
            ({
                let th = target_height(img.width as int, img.height as int, config.width as int);
                let g = spec_char_set(config.detail_level);
                match r {
                    Ok(text) => {
                        &&& th <= u32::MAX
                        &&& glyph_grid_shaped(text@, config.width as int, g, th)
                        &&& text@ == pipeline_text(
                            resampled(
                                img.pixels@,
                                img.width as int,
                                img.height as int,
                                config.width as int,
                                th,
                            ),
                            config.width as int,
                            th,
                            config.contrast_factor as int,
                            config.blur_sigma as int,
                            g,
                        )
                    },
                    Err(e) => th > u32::MAX && e == ConversionError::InvalidImageData,
                }
            }),
    {
        let tw = config.width as u64;
        let sw = img.width as u64;
        let sh = img.height as u64;
        proof {
            assert(0 <= 86 * (tw as int) * (sh as int) <= 86 * 1000 * 0xffff_ffff && 0 < 200 * (
            sw as int) <= 200 * 0xffff_ffff) by (nonlinear_arith)
                requires
                    1 <= (tw as int) <= 1000,
                    1 <= (sh as int) <= 0xffff_ffff,
                    1 <= (sw as int) <= 0xffff_ffff,
            ;
        }
        let raw = (86 * tw * sh + 100 * sw) / (200 * sw);
        let th = if raw < 1 {
            1
        } else {
            raw
        };
        if th > u32::MAX as u64 {
            return Err(ConversionError::InvalidImageData);
        }
        let resized = resize_rgb(img, config.width as usize, th as usize);
        let contrasted = enhance_contrast(&resized, config.contrast_factor);
        let gray = rgb_to_luma(&contrasted);
        let smoothed = gaussian_blur(&gray, config.blur_sigma);
        let char_set = config.detail_level.char_set();
        proof {
            lemma_char_set_facts(config.detail_level);
        }
        let glyph_count = char_set.unicode_len();
        let processed = adaptive_threshold(&smoothed, glyph_count);
        let text = render(&processed, char_set);
        proof {
            lemma_rendered_shape(
                processed.pixels@,
                config.width as int,
                th as int,
                char_set@,
            );
            let gw = config.width as int;
            let gh = th as int;
            let cc = config.contrast_factor as int;
            let sg = config.blur_sigma as int;
            let g = char_set@;
            let rz = resized.pixels@;
            assert(1 <= gw * gh && rz.len() == 3 * gw * gh) by (nonlinear_arith)
                requires
                    1 <= gw,
                    1 <= gh,
                    rz.len() == 3 * gw * gh,
            ;
            let contrasted_spec = Seq::new(
                rz.len(),
                |i: int| adjusted_channel(rz[i] as int, cc) as u8,
            );
            assert(contrasted.pixels@ =~= contrasted_spec) by {
                assert forall|i: int|
                    0 <= i < contrasted.pixels@.len() implies contrasted.pixels@[i]
                    == contrasted_spec[i] by {
                    assert(contrasted.pixels@[i] as int == adjusted_channel(rz[i] as int, cc));
                }
            }
            let gray_spec = Seq::new(
                (gw * gh) as nat,
                |i: int|
                    luma_value(
                        contrasted_spec[3 * i],
                        contrasted_spec[3 * i + 1],
                        contrasted_spec[3 * i + 2],
                    ),
            );
            assert(gray.pixels@.len() == gw * gh);
            assert(gray.pixels@ =~= gray_spec) by {
                assert forall|i: int|
                    0 <= i < gray.pixels@.len() implies gray.pixels@[i] == gray_spec[i] by {
                    assert(0 <= 3 * i && 3 * i + 2 < contrasted.pixels@.len())
                        by (nonlinear_arith)
                        requires
                            0 <= i < gw * gh,
                            contrasted.pixels@.len() == 3 * gw * gh,
                    ;
                    assert(gray.pixels@[i] == luma_value(
                        contrasted.pixels@[3 * i],
                        contrasted.pixels@[3 * i + 1],
                        contrasted.pixels@[3 * i + 2],
                    ));
                }
            }
            let smoothed_spec = if sg == 0 {
                gray_spec
            } else {
                blurred(gray_spec, gw, gh, sg)
            };
            assert(smoothed.pixels@ == smoothed_spec);
            let processed_spec = Seq::new(
                (gw * gh) as nat,
                |i: int|
                    adaptive_value(
                        count_le(smoothed_spec, smoothed_spec[i] as int),
                        smoothed_spec.len() as int,
                        g.len() as int,
                    ) as u8,
            );
            assert(smoothed.pixels@.len() == gw * gh);
            assert(processed.pixels@ =~= processed_spec) by {
                assert forall|i: int|
                    0 <= i < processed.pixels@.len() implies processed.pixels@[i]
                    == processed_spec[i] by {
                    assert(processed.pixels@[i] as int == adaptive_value(
                        count_le(smoothed.pixels@, smoothed.pixels@[i] as int),
                        smoothed.pixels@.len() as int,
                        glyph_count as int,
                    ));
                }
            }
            assert(text@ == pipeline_text(rz, gw, gh, cc, sg, g));
        }
        Ok(text)
    }

    /// Convert stored image bytes to ASCII art: decode, then run the
    /// pipeline. Decode failure surfaces as a distinct error kind,
    /// if and only if the bytes do not decode; a decoded image with
    /// a zero dimension, or a glyph grid too tall to address, is
    /// rejected as invalid; on every other input the conversion
    /// succeeds with exactly the pipeline's text.
    pub fn convert_to_ascii(&self, image_data: &ImageData, config: &ConversionConfig) -> (r:
        Result<String, ConversionError>)
        requires
            config.valid(),
        ensures
            ({
                let g = spec_char_set(config.detail_level);
                let d = decoded_image(image_data.data@);
                match r {
                    Ok(text) => ({
                        let dims = d->0;
                        let th = target_height(dims.0, dims.1, config.width as int);
                        &&& d is Some
                        &&& 1 <= dims.0 && 1 <= dims.1
                        &&& th <= u32::MAX
                        &&& glyph_grid_shaped(text@, config.width as int, g, th)
                        &&& text@ == pipeline_text(
                            resampled(dims.2, dims.0, dims.1, config.width as int, th),
                            config.width as int,
                            th,
                            config.contrast_factor as int,
                            config.blur_sigma as int,
                            g,
                        )
                    }),
                    Err(ConversionError::ImageDecodeError(_)) => d is None,
                    Err(ConversionError::InvalidImageData) => d is Some && ({
                        let dims = d->0;
                        dims.0 == 0 || dims.1 == 0 || target_height(
                            dims.0,
                            dims.1,
                            config.width as int,
                        ) > u32::MAX
                    }),
                }
            }),
    {
        let decoded = match decode_rgb(&image_data.data) {
            Ok(d) => d,
            Err(m) => {
                return Err(ConversionError::ImageDecodeError(m));
            },
        };
        if decoded.width == 0 || decoded.height == 0 {
            return Err(ConversionError::InvalidImageData);
        }
        self.convert_image_to_ascii(&decoded, config)
    }
}

impl Default for AsciiConversionService {
    fn default() -> Self {
        Self::new()
    }
}

} // verus!

