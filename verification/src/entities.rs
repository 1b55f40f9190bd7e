//! Domain entities: uploaded image data and produced ASCII art,
//! with the text measurements their validity checks use.

use vstd::prelude::*;
use crate::config::DetailLevel;
use crate::raster::copy_bytes;

verus! {

/// Relies on `uuid::Uuid::new_v4` (read back with `as_u128`): a
/// freshly drawn random 128-bit identifier. Nothing is promised of
/// the value.
#[verifier::external_body]
pub fn fresh_id() -> u128 {
    uuid::Uuid::new_v4().as_u128()
}

/// Relies on `chrono::Utc::now` (read with `timestamp_millis`): the
/// current wall clock in milliseconds since the Unix epoch. Nothing
/// is promised of the value.
#[verifier::external_body]
pub fn now_timestamp_millis() -> i64 {
    chrono::Utc::now().timestamp_millis()
}

/// Number of occurrences of `c` in `s`.
pub open spec fn count_char(s: Seq<char>, c: char) -> int
    decreases s.len(),
{
    if s.len() == 0 {
        0
    } else {
        count_char(s.drop_last(), c) + (if s.last() == c {
            1int
        } else {
            0int
        })
    }
}

pub proof fn lemma_count_char_bounded(s: Seq<char>, c: char)
    ensures
        0 <= count_char(s, c) <= s.len(),
    decreases s.len(),
{
    if s.len() > 0 {
        lemma_count_char_bounded(s.drop_last(), c);
    }
}

/// How many rows `str::lines` sees: one more than the separators,
/// unless the text is empty or ends in a line break.
pub open spec fn spec_line_count(s: Seq<char>) -> int {
    if s.len() == 0 {
        0
    } else {
        count_char(s, '\n') + (if s.last() == '\n' {
            0int
        } else {
            1int
        })
    }
}

/// The characters before the first line break.
pub open spec fn spec_first_line_len(s: Seq<char>) -> int
    decreases s.len(),
{
    if s.len() == 0 {
        0
    } else if s[0] == '\n' {
        0
    } else {
        1 + spec_first_line_len(s.skip(1))
    }
}

/// Count the rows of a text as `str::lines` does.
pub fn line_count_of(s: &str) -> (r: usize)
    ensures
        r as int == spec_line_count(s@),
{
    let n = s.unicode_len();
    if n == 0 {
        return 0;
    }
    let mut cnt: usize = 0;
    let mut i: usize = 0;
    while i < n
        invariant
            n == s@.len(),
            0 <= i <= n,
            cnt as int == count_char(s@.take(i as int), '\n'),
            cnt <= i,
        decreases n - i,
    {
        proof {
            lemma_count_char_bounded(s@.take(i as int), '\n');
            assert(s@.take(i as int + 1).drop_last() =~= s@.take(i as int));
            assert(s@.take(i as int + 1).last() == s@[i as int]);
        }
        let c = s.get_char(i);
        if c == '\n' {
            cnt += 1;
        }
        i += 1;
    }
    proof {
        assert(s@.take(n as int) =~= s@);
        lemma_count_char_bounded(s@.drop_last(), '\n');
    }
    let last = s.get_char(n - 1);
    if last == '\n' {
        cnt
    } else {
        cnt + 1
    }
}

/// Length of the first line of a text.
pub fn first_line_len_of(s: &str) -> (r: usize)
    ensures
        r as int == spec_first_line_len(s@),
{
    let n = s.unicode_len();
    proof {
        assert(s@.skip(0) =~= s@);
    }
    let mut i: usize = 0;
    while i < n
        invariant
            n == s@.len(),
            0 <= i <= n,
            spec_first_line_len(s@) == i + spec_first_line_len(s@.skip(i as int)),
        decreases n - i,
    {
        let c = s.get_char(i);
        proof {
            assert(s@.skip(i as int)[0] == s@[i as int]);
        }
        if c == '\n' {
            return i;
        }
        proof {
            assert(s@.skip(i as int).skip(1) =~= s@.skip(i as int + 1));
        }
        i += 1;
    }
    proof {
        assert(s@.skip(n as int).len() == 0);
    }
    n
}

/// Image data entity representing an uploaded image. The identifier
/// is a random 128-bit value drawn at construction.
pub struct ImageData {
    pub id: u128,
    pub original_filename: String,
    pub content_type: String,
    pub data: Vec<u8>,
    pub width: u32,
    pub height: u32,
}

impl ImageData {
    /// Fieldwise equality of two entities' contents.
    pub open spec fn congruent(a: ImageData, b: ImageData) -> bool {
        &&& a.id == b.id
        &&& a.original_filename@ == b.original_filename@
        &&& a.content_type@ == b.content_type@
        &&& a.data@ == b.data@
        &&& a.width == b.width
        &&& a.height == b.height
    }

    /// Create a new entity with a fresh random identifier.
    pub fn new(
        original_filename: String,
        content_type: String,
        data: Vec<u8>,
        width: u32,
        height: u32,
    ) -> (r: Self)
        ensures
            r.original_filename@ == original_filename@,
            r.content_type@ == content_type@,
            r.data@ == data@,
            r.width == width,
            r.height == height,
    {
        Self { id: fresh_id(), original_filename, content_type, data, width, height }
    }

    /// Check if the image is valid (has content).
    pub fn is_valid(&self) -> (r: bool)
        ensures
            r == (self.data@.len() > 0 && self.width > 0 && self.height > 0),
    {
        !self.data.is_empty() && self.width > 0 && self.height > 0
    }
}

/// Copy a string's characters.
fn clone_string(s: &String) -> (r: String)
    ensures
        r@ == s@,
{
    String::from_str(s.as_str())
}

impl Clone for ImageData {
    /// The clone carries the same contents.
    fn clone(&self) -> (r: Self)
        ensures
            ImageData::congruent(r, *self),
    {
        ImageData {
            id: self.id,
            original_filename: clone_string(&self.original_filename),
            content_type: clone_string(&self.content_type),
            data: copy_bytes(&self.data),
            width: self.width,
            height: self.height,
        }
    }
}

/// ASCII art entity representing a converted result. `created_at`
/// holds the creation time in milliseconds since the Unix epoch.
pub struct AsciiArt {
    pub id: u128,
    pub image_id: u128,
    pub content: String,
    pub width: u32,
    pub height: u32,
    pub detail_level: DetailLevel,
    pub created_at: i64,
}

impl AsciiArt {
    /// Fieldwise equality of two entities' contents.
    pub open spec fn congruent(a: AsciiArt, b: AsciiArt) -> bool {
        &&& a.id == b.id
        &&& a.image_id == b.image_id
        &&& a.content@ == b.content@
        &&& a.width == b.width
        &&& a.height == b.height
        &&& a.detail_level == b.detail_level
        &&& a.created_at == b.created_at
    }

    /// Create a new instance with a fresh identifier and the current
    /// time.
    pub fn new(
        image_id: u128,
        content: String,
        width: u32,
        height: u32,
        detail_level: DetailLevel,
    ) -> (r: Self)
        ensures
            r.image_id == image_id,
            r.content@ == content@,
            r.width == width,
            r.height == height,
            r.detail_level == detail_level,
    {
        Self {
            id: fresh_id(),
            image_id,
            content,
            width,
            height,
            detail_level,
            created_at: now_timestamp_millis(),
        }
    }

    /// Check if the ASCII art is valid.
    pub fn is_valid(&self) -> (r: bool)
        ensures
            r == (self.content@.len() > 0 && self.width > 0 && self.height > 0),
    {
        !self.content.as_str().is_empty() && self.width > 0 && self.height > 0
    }

    /// Get the number of lines in the ASCII art.
    pub fn line_count(&self) -> (r: usize)
        ensures
            r as int == spec_line_count(self.content@),
    {
        line_count_of(self.content.as_str())
    }
}

impl Clone for AsciiArt {
    /// The clone carries the same contents.
    fn clone(&self) -> (r: Self)
        ensures
            AsciiArt::congruent(r, *self),
    {
        AsciiArt {
            id: self.id,
            image_id: self.image_id,
            content: clone_string(&self.content),
            width: self.width,
            height: self.height,
            detail_level: self.detail_level,
            created_at: self.created_at,
        }
    }
}

} // verus!
