//! Request-level validation: the upload extractor's checks and the
//! conversion query's parsing, with the web error kinds they report.

use vstd::prelude::*;
use crate::config::ConversionConfig;
use crate::config::DetailLevel;
use crate::format::str_eq;

verus! {

/// Web-facing error kinds.
#[derive(Debug)]
pub enum WebError {
    BadRequest(String),
    NotFound(String),
    InternalServerError(String),
    PayloadTooLarge,
    UnsupportedMediaType,
}

impl WebError {
    /// The HTTP status code this error maps to.
    pub fn http_status(&self) -> (r: u16)
        ensures
            self is BadRequest ==> r == 400,
            self is NotFound ==> r == 404,
            self is InternalServerError ==> r == 500,
            self is PayloadTooLarge ==> r == 413,
            self is UnsupportedMediaType ==> r == 415,
    {
        match self {
            WebError::BadRequest(_) => 400,
            WebError::NotFound(_) => 404,
            WebError::InternalServerError(_) => 500,
            WebError::PayloadTooLarge => 413,
            WebError::UnsupportedMediaType => 415,
        }
    }
}

/// The upload size cap in bytes (10 MB).
pub const MAX_FILE_SIZE: usize = 10 * 1024 * 1024;

/// Whether a MIME type names an image, i.e. starts with `image/`.
pub open spec fn has_image_prefix(s: Seq<char>) -> bool {
    s.len() >= 6 && s.subrange(0, 6) == "image/"@
}

/// Check the `image/` prefix.
fn starts_with_image(s: &str) -> (r: bool)
    ensures
        r == has_image_prefix(s@),
{
    proof {
        reveal_strlit("image/");
    }
    let n = s.unicode_len();
    if n < 6 {
        return false;
    }
    let p = "image/";
    let mut i: usize = 0;
    while i < 6
        invariant
            s@.len() >= 6,
            p@ == "image/"@,
            p@.len() == 6,
            0 <= i <= 6,
            forall|j: int| 0 <= j < i ==> s@[j] == p@[j],
        decreases 6 - i,
    {
        if s.get_char(i) != p.get_char(i) {
            proof {
                if has_image_prefix(s@) {
                    assert(s@.subrange(0, 6)[i as int] == "image/"@[i as int]);
                    assert(s@.subrange(0, 6)[i as int] == s@[i as int]);
                }
            }
            return false;
        }
        i += 1;
    }
    proof {
        assert(s@.subrange(0, 6) =~= "image/"@);
    }
    true
}

/// Multipart form data for an image upload.
pub struct ImageUpload {
    pub filename: String,
    pub content_type: String,
    pub data: Vec<u8>,
}

impl ImageUpload {
    /// Assemble and validate the fields read from a multipart
    /// upload: every field must be present, the content type must
    /// name an image, and the payload must fit the size cap.
    pub fn from_parts(
        filename: Option<String>,
        content_type: Option<String>,
        data: Option<Vec<u8>>,
    ) -> (r: Result<ImageUpload, WebError>)
        ensures
            filename is None ==> (r matches Err(WebError::BadRequest(m)) && m@
                == "Missing filename in image field"@),
            filename is Some && content_type is None ==> (r matches Err(WebError::BadRequest(m))
                && m@ == "Missing content type in image field"@),
            filename is Some && content_type is Some && data is None ==> (r matches Err(
                WebError::BadRequest(m),
            ) && m@ == "Missing image data"@),
            filename is Some && content_type is Some && data is Some && !has_image_prefix(
                content_type->0@,
            ) ==> r == Err::<ImageUpload, WebError>(WebError::UnsupportedMediaType),
            filename is Some && content_type is Some && data is Some && has_image_prefix(
                content_type->0@,
            ) && data->0@.len() > MAX_FILE_SIZE ==> r == Err::<ImageUpload, WebError>(
                WebError::PayloadTooLarge,
            ),
            (filename is Some && content_type is Some && data is Some && has_image_prefix(
                content_type->0@,
            ) && data->0@.len() <= MAX_FILE_SIZE) <==> r is Ok,
            r is Ok ==> ({
                let u = r->Ok_0;
                &&& u.filename@ == filename->0@
                &&& u.content_type@ == content_type->0@
                &&& u.data@ == data->0@
            }),
    {
        proof {
            reveal_strlit("Missing filename in image field");
            reveal_strlit("Missing content type in image field");
            reveal_strlit("Missing image data");
        }
        let filename = match filename {
            Some(f) => f,
            None => {
                return Err(
                    WebError::BadRequest(String::from_str("Missing filename in image field")),
                );
            },
        };
        let content_type = match content_type {
            Some(c) => c,
            None => {
                return Err(
                    WebError::BadRequest(String::from_str("Missing content type in image field")),
                );
            },
        };
        let data = match data {
            Some(d) => d,
            None => {
                return Err(WebError::BadRequest(String::from_str("Missing image data")));
            },
        };
        if !starts_with_image(content_type.as_str()) {
            return Err(WebError::UnsupportedMediaType);
        }
        if data.len() > MAX_FILE_SIZE {
            return Err(WebError::PayloadTooLarge);
        }
        Ok(ImageUpload { filename, content_type, data })
    }
}

/// The detail level a query names: absent means high, anything but
/// `low` or `high` is rejected.
pub open spec fn spec_detail_level(detail: Option<Seq<char>>) -> Option<DetailLevel> {
    match detail {
        Option::None => Some(DetailLevel::High),
        Option::Some(s) => {
            if s == "low"@ {
                Some(DetailLevel::Low)
            } else if s == "high"@ {
                Some(DetailLevel::High)
            } else {
                None
            }
        },
    }
}

/// The configuration a query requests once defaults are filled in:
/// width 100, contrast 1.2 and blur sigma 0.5 (both in hundredths).
pub open spec fn spec_requested_config(
    width: Option<u32>,
    level: DetailLevel,
    contrast: Option<u32>,
    blur: Option<u32>,
) -> ConversionConfig {
    ConversionConfig {
        width: if width is Some {
            width->0
        } else {
            100
        },
        detail_level: level,
        contrast_factor: if contrast is Some {
            contrast->0
        } else {
            120
        },
        blur_sigma: if blur is Some {
            blur->0
        } else {
            50
        },
    }
}

/// Parse a conversion query into a validated configuration. The
/// contrast factor and blur sigma arrive in hundredths.
pub fn build_conversion_config(
    width: Option<u32>,
    detail: Option<&str>,
    contrast: Option<u32>,
    blur: Option<u32>,
) -> (r: Result<ConversionConfig, WebError>)
    ensures
        spec_detail_level(
            match detail {
                Option::Some(s) => Some(s@),
                Option::None => None,
            },
        ) is None ==> (r matches Err(WebError::BadRequest(m)) && m@
            == "Invalid detail level. Use 'low' or 'high'"@),
        ({
            let level = spec_detail_level(
                match detail {
                    Option::Some(s) => Some(s@),
                    Option::None => None,
                },
            );
            level is Some ==> {
                let cfg = spec_requested_config(width, level->0, contrast, blur);
                &&& cfg.valid() <==> r == Ok::<ConversionConfig, WebError>(cfg)
                &&& !cfg.valid() ==> (r matches Err(WebError::BadRequest(m)) && m@
                    == "Invalid conversion parameters"@)
            }
        }),
{
    proof {
        reveal_strlit("low");
        reveal_strlit("high");
        reveal_strlit("Invalid detail level. Use 'low' or 'high'");
        reveal_strlit("Invalid conversion parameters");
    }
    let detail_level = match detail {
        Option::None => DetailLevel::High,
        Option::Some(s) => {
            if str_eq(s, "low") {
                DetailLevel::Low
            } else if str_eq(s, "high") {
                DetailLevel::High
            } else {
                return Err(
                    WebError::BadRequest(
                        String::from_str("Invalid detail level. Use 'low' or 'high'"),
                    ),
                );
            }
        },
    };
    let w = match width {
        Some(v) => v,
        None => 100,
    };
    let c = match contrast {
        Some(v) => v,
        None => 120,
    };
    let b = match blur {
        Some(v) => v,
        None => 50,
    };
    let config = ConversionConfig::with_params(w, detail_level, c, b);
    if !config.is_valid() {
        return Err(WebError::BadRequest(String::from_str("Invalid conversion parameters")));
    }
    Ok(config)
}

} // verus!
