//! Supported image formats and their wire names.

use vstd::prelude::*;

verus! {

/// Supported image formats.
#[derive(Debug, Clone, Copy, PartialEq, Eq, Structural)]
pub enum ImageFormat {
    Jpeg,
    Png,
    Gif,
    Webp,
    Bmp,
}

/// Character-for-character equality of two strings.
pub(crate) fn str_eq(a: &str, b: &str) -> (r: bool)
    ensures
        r == (a@ == b@),
{
    let na = a.unicode_len();
    let nb = b.unicode_len();
    if na != nb {
        return false;
    }
    let mut i: usize = 0;
    while i < na
        invariant
            na == a@.len(),
            na == b@.len(),
            0 <= i <= na,
            forall|j: int| 0 <= j < i ==> a@[j] == b@[j],
        decreases na - i,
    {
        if a.get_char(i) != b.get_char(i) {
            return false;
        }
        i += 1;
    }
    proof {
        assert(a@ =~= b@);
    }
    true
}

/// The character code after ASCII lowercasing: letters `A`..`Z` move
/// down by 32, everything else is unchanged.
pub open spec fn lower_code(c: char) -> int {
    if 65 <= c as int <= 90 {
        c as int + 32
    } else {
        c as int
    }
}

/// Whether `s` equals `t` up to ASCII case, `t` taken literally.
pub open spec fn matches_ci(s: Seq<char>, t: Seq<char>) -> bool {
    s.len() == t.len() && forall|i: int| 0 <= i < s.len() ==> #[trigger] lower_code(s[i]) == t[i] as int
}

/// Case-insensitive comparison of `s` against a lowercase pattern.
fn str_eq_ci(s: &str, t: &str) -> (r: bool)
    ensures
        r == matches_ci(s@, t@),
{
    let n = s.unicode_len();
    let nt = t.unicode_len();
    if n != nt {
        return false;
    }
    let mut i: usize = 0;
    while i < n
        invariant
            n == s@.len(),
            n == t@.len(),
            0 <= i <= n,
            forall|j: int| 0 <= j < i ==> #[trigger] lower_code(s@[j]) == t@[j] as int,
        decreases n - i,
    {
        let c = s.get_char(i);
        let e = t.get_char(i);
        let cc = c as u32;
        let ec = e as u32;
        let matched = if cc >= 65 && cc <= 90 {
            cc + 32 == ec
        } else {
            cc == ec
        };
        if !matched {
            proof {
                assert(lower_code(s@[i as int]) != t@[i as int] as int);
                if matches_ci(s@, t@) {
                    assert(lower_code(s@[i as int]) == t@[i as int] as int);
                }
            }
            return false;
        }
        i += 1;
    }
    true
}

/// What `from_mime_type` recognizes, applied to the view.
pub open spec fn spec_from_mime_type(m: Seq<char>) -> Option<ImageFormat> {
    if m == "image/jpeg"@ || m == "image/jpg"@ {
        Some(ImageFormat::Jpeg)
    } else if m == "image/png"@ {
        Some(ImageFormat::Png)
    } else if m == "image/gif"@ {
        Some(ImageFormat::Gif)
    } else if m == "image/webp"@ {
        Some(ImageFormat::Webp)
    } else if m == "image/bmp"@ {
        Some(ImageFormat::Bmp)
    } else {
        None
    }
}

/// What `from_extension` recognizes, applied to the view.
pub open spec fn spec_from_extension(e: Seq<char>) -> Option<ImageFormat> {
    if matches_ci(e, "jpg"@) || matches_ci(e, "jpeg"@) {
        Some(ImageFormat::Jpeg)
    } else if matches_ci(e, "png"@) {
        Some(ImageFormat::Png)
    } else if matches_ci(e, "gif"@) {
        Some(ImageFormat::Gif)
    } else if matches_ci(e, "webp"@) {
        Some(ImageFormat::Webp)
    } else if matches_ci(e, "bmp"@) {
        Some(ImageFormat::Bmp)
    } else {
        None
    }
}

impl ImageFormat {
    /// Get the MIME type for this format.
    pub fn mime_type(&self) -> (r: &'static str)
        ensures
            self is Jpeg ==> r@ == "image/jpeg"@,
            self is Png ==> r@ == "image/png"@,
            self is Gif ==> r@ == "image/gif"@,
            self is Webp ==> r@ == "image/webp"@,
            self is Bmp ==> r@ == "image/bmp"@,
    {
        match self {
            ImageFormat::Jpeg => "image/jpeg",
            ImageFormat::Png => "image/png",
            ImageFormat::Gif => "image/gif",
            ImageFormat::Webp => "image/webp",
            ImageFormat::Bmp => "image/bmp",
        }
    }

    /// Get the file extension for this format.
    pub fn extension(&self) -> (r: &'static str)
        ensures
            self is Jpeg ==> r@ == "jpg"@,
            self is Png ==> r@ == "png"@,
            self is Gif ==> r@ == "gif"@,
            self is Webp ==> r@ == "webp"@,
            self is Bmp ==> r@ == "bmp"@,
    {
        match self {
            ImageFormat::Jpeg => "jpg",
            ImageFormat::Png => "png",
            ImageFormat::Gif => "gif",
            ImageFormat::Webp => "webp",
            ImageFormat::Bmp => "bmp",
        }
    }

    /// The format's display name.
    pub fn display_name(&self) -> (r: &'static str)
        ensures
            self is Jpeg ==> r@ == "JPEG"@,
            self is Png ==> r@ == "PNG"@,
            self is Gif ==> r@ == "GIF"@,
            self is Webp ==> r@ == "WebP"@,
            self is Bmp ==> r@ == "BMP"@,
    {
        match self {
            ImageFormat::Jpeg => "JPEG",
            ImageFormat::Png => "PNG",
            ImageFormat::Gif => "GIF",
            ImageFormat::Webp => "WebP",
            ImageFormat::Bmp => "BMP",
        }
    }

    /// Parse a format from a MIME type, exactly.
    pub fn from_mime_type(mime_type: &str) -> (r: Option<ImageFormat>)
        ensures
            r == spec_from_mime_type(mime_type@),
    {
        if str_eq(mime_type, "image/jpeg") || str_eq(mime_type, "image/jpg") {
            Some(ImageFormat::Jpeg)
        } else if str_eq(mime_type, "image/png") {
            Some(ImageFormat::Png)
        } else if str_eq(mime_type, "image/gif") {
            Some(ImageFormat::Gif)
        } else if str_eq(mime_type, "image/webp") {
            Some(ImageFormat::Webp)
        } else if str_eq(mime_type, "image/bmp") {
            Some(ImageFormat::Bmp)
        } else {
            None
        }
    }

    /// Parse a format from a file extension, ignoring ASCII case.
    pub fn from_extension(extension: &str) -> (r: Option<ImageFormat>)
        ensures
            r == spec_from_extension(extension@),
    {
        if str_eq_ci(extension, "jpg") || str_eq_ci(extension, "jpeg") {
            Some(ImageFormat::Jpeg)
        } else if str_eq_ci(extension, "png") {
            Some(ImageFormat::Png)
        } else if str_eq_ci(extension, "gif") {
            Some(ImageFormat::Gif)
        } else if str_eq_ci(extension, "webp") {
            Some(ImageFormat::Webp)
        } else if str_eq_ci(extension, "bmp") {
            Some(ImageFormat::Bmp)
        } else {
            None
        }
    }
}

} // verus!
