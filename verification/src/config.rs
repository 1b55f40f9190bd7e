//! Conversion parameters: the detail level with its glyph set, and
//! the validated configuration for one conversion.

use vstd::prelude::*;

verus! {

/// Level of detail for ASCII art conversion: each level is bound to a
/// fixed glyph string ordered from sparsest to densest.
#[derive(Debug, Clone, Copy, PartialEq, Eq, Structural)]
pub enum DetailLevel {
    Low,
    High,
}

/// The ten-glyph set of `DetailLevel::Low`.
pub open spec fn low_glyphs() -> Seq<char> {
    " .-:=+*#%@"@
}

/// The sixty-nine-glyph set of `DetailLevel::High`.
pub open spec fn high_glyphs() -> Seq<char> {
    " .`'^,:;Il!i><~+_-?][}{1)(|\\/tfjrxnuvczXYUJCLQ0OZmwqpdbkhao*#MW&8%B@$"@
}

/// The glyph set a detail level selects, sparsest glyph first.
pub open spec fn spec_char_set(level: DetailLevel) -> Seq<char> {
    match level {
        DetailLevel::Low => low_glyphs(),
        DetailLevel::High => high_glyphs(),
    }
}

/// Both glyph sets have between 2 and 69 glyphs and contain no line
/// break, so rows of glyphs are unambiguous in the rendered text.
pub proof fn lemma_char_set_facts(level: DetailLevel)
    ensures
        2 <= spec_char_set(level).len() <= 69,
        spec_char_set(DetailLevel::Low).len() == 10,
        spec_char_set(DetailLevel::High).len() == 69,
        forall|i: int| 0 <= i < spec_char_set(level).len() ==> spec_char_set(level)[i] != '\n',
{
    reveal_strlit(" .-:=+*#%@");
    reveal_strlit(" .`'^,:;Il!i><~+_-?][}{1)(|\\/tfjrxnuvczXYUJCLQ0OZmwqpdbkhao*#MW&8%B@$");
    assert forall|i: int| 0 <= i < spec_char_set(level).len() implies spec_char_set(level)[i]
        != '\n' by {
        if spec_char_set(level).len() == 10 {
            assert(spec_char_set(level)[i] != '\n');
        } else {
            assert(spec_char_set(level)[i] != '\n');
        }
    }
}

impl DetailLevel {
    /// Get the ASCII character set for this detail level.
    pub fn char_set(&self) -> (r: &'static str)
        ensures
            r@ == spec_char_set(*self),
    {
        match self {
            DetailLevel::Low => " .-:=+*#%@",
            DetailLevel::High => " .`'^,:;Il!i><~+_-?][}{1)(|\\/tfjrxnuvczXYUJCLQ0OZmwqpdbkhao*#MW&8%B@$",
        }
    }
}

/// Configuration for ASCII art conversion.
///
/// `contrast_factor` and `blur_sigma` are fixed-point values in
/// hundredths: a contrast factor of 120 scales distances from
/// mid-gray by 1.2, a blur sigma of 50 is a Gaussian sigma of 0.5.
#[derive(Debug, Clone, Copy, PartialEq, Eq, Structural)]
pub struct ConversionConfig {
    pub width: u32,
    pub detail_level: DetailLevel,
    pub contrast_factor: u32,
    pub blur_sigma: u32,
}

impl ConversionConfig {
    /// Width is positive and capped, the contrast factor is positive
    /// and at most 3, and the blur sigma is at most 5.
    pub open spec fn valid(self) -> bool {
        &&& 0 < self.width <= 1000
        &&& 0 < self.contrast_factor <= 300
        &&& self.blur_sigma <= 500
    }

    /// Create a new conversion configuration with the default
    /// contrast factor of 1.2 and blur sigma of 0.5.
    pub fn new(width: u32, detail_level: DetailLevel) -> (r: Self)
        ensures
            r == (ConversionConfig {
                width,
                detail_level,
                contrast_factor: 120u32,
                blur_sigma: 50u32,
            }),
    {
        Self { width, detail_level, contrast_factor: 120, blur_sigma: 50 }
    }

    /// Create a configuration with custom parameters.
    pub fn with_params(
        width: u32,
        detail_level: DetailLevel,
        contrast_factor: u32,
        blur_sigma: u32,
    ) -> (r: Self)
        ensures
            r == (ConversionConfig { width, detail_level, contrast_factor, blur_sigma }),
    {
        Self { width, detail_level, contrast_factor, blur_sigma }
    }

    /// Validate the configuration.
    pub fn is_valid(&self) -> (r: bool)
        ensures
            r == self.valid(),
    {
        self.width > 0 && self.width <= 1000 && self.contrast_factor > 0
            && self.contrast_factor <= 300 && self.blur_sigma <= 500
    }
}

impl Default for ConversionConfig {
    /// The default configuration: width 100, high detail.
    fn default() -> (r: Self)
        ensures
            r == (ConversionConfig {
                width: 100u32,
                detail_level: DetailLevel::High,
                contrast_factor: 120u32,
                blur_sigma: 50u32,
            }),
    {
        Self::new(100, DetailLevel::High)
    }
}

} // verus!
