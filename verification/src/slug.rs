//! Validated monitor identifiers.

use vstd::prelude::*;
use vstd::std_specs::cmp::PartialEqSpec;

verus! {

/// Maximum number of characters in a slug.
pub const MAX_SLUG_LENGTH: usize = 64;

/// A slug character is a lowercase ASCII letter, an ASCII digit, or a hyphen.
pub open spec fn is_slug_char(c: char) -> bool {
    ('a' <= c && c <= 'z') || ('0' <= c && c <= '9') || c == '-'
}

/// A valid slug has 1 to 64 characters, all slug characters, and neither
/// starts nor ends with a hyphen.
pub open spec fn is_valid_slug(s: Seq<char>) -> bool {
    &&& 1 <= s.len() <= MAX_SLUG_LENGTH
    &&& forall|i: int| 0 <= i < s.len() ==> is_slug_char(#[trigger] s[i])
    &&& s[0] != '-'
    &&& s[s.len() - 1] != '-'
}

/// Why a candidate slug was rejected.
#[derive(Debug, Clone, PartialEq, Eq, Structural)]
pub enum SlugError {
    /// The input was empty.
    Empty,
    /// The input had more than 64 characters; carries the character count.
    TooLong(usize),
    /// A character was not a lowercase ASCII letter, digit, or hyphen.
    InvalidCharacters,
    /// The input started or ended with a hyphen.
    InvalidHyphenPosition,
}

/// The error `new` yields for an invalid input, following the validation
/// order: empty, then length, then character set, then hyphen position.
pub open spec fn spec_slug_error(s: Seq<char>) -> SlugError {
    if s.len() == 0 {
        SlugError::Empty
    } else if s.len() > MAX_SLUG_LENGTH {
        SlugError::TooLong(s.len() as usize)
    } else if exists|i: int| 0 <= i < s.len() && !is_slug_char(#[trigger] s[i]) {
        SlugError::InvalidCharacters
    } else {
        SlugError::InvalidHyphenPosition
    }
}

/// The human-readable text of a validation error.
pub open spec fn slug_error_text(e: SlugError) -> Seq<char> {
    match e {
        SlugError::Empty => "slug must not be empty"@,
        SlugError::TooLong(n) => "slug length "@ + crate::text::dec_str_u64(n as u64)
            + " exceeds maximum of 64"@,
        SlugError::InvalidCharacters => "slug must contain only lowercase letters, digits, and hyphens"@,
        SlugError::InvalidHyphenPosition => "slug must not start or end with a hyphen"@,
    }
}

impl SlugError {
    /// Render the error for people.
    pub fn message(&self) -> (r: String)
        ensures
            r@ == slug_error_text(*self),
    {
        match self {
            SlugError::Empty => String::from_str("slug must not be empty"),
            SlugError::TooLong(n) => {
                let mut m = String::from_str("slug length ");
                let digits = crate::text::u64_to_string(*n as u64);
                m.append(digits.as_str());
                m.append(" exceeds maximum of 64");
                proof {
                    assert(m@ =~= slug_error_text(*self));
                }
                m
            },
            SlugError::InvalidCharacters => String::from_str(
                "slug must contain only lowercase letters, digits, and hyphens",
            ),
            SlugError::InvalidHyphenPosition => String::from_str(
                "slug must not start or end with a hyphen",
            ),
        }
    }
}

/// A validated monitor slug. Construction through `new` is the only way to
/// obtain one, so every value satisfies `is_valid_slug`.
#[derive(Debug)]
pub struct Slug {
    text: String,
}

impl View for Slug {
    type V = Seq<char>;

    closed spec fn view(&self) -> Seq<char> {
        self.text@
    }
}

impl Slug {
    /// Every constructed slug is well formed.
    pub open spec fn wf(&self) -> bool {
        is_valid_slug(self@)
    }

    /// Validate `s` and build a slug from it.
    ///
    /// Checks run in order: empty, then length, then character set, then
    /// hyphen position; the error names the first check that failed.
    pub fn new(s: &str) -> (r: Result<Slug, SlugError>)
        ensures
            match r {
                Ok(slug) => slug.wf() && slug@ == s@,
                Err(SlugError::Empty) => s@.len() == 0,
                Err(SlugError::TooLong(n)) => s@.len() > MAX_SLUG_LENGTH && n == s@.len(),
                Err(SlugError::InvalidCharacters) => 1 <= s@.len() <= MAX_SLUG_LENGTH
                    && (exists|i: int| 0 <= i < s@.len() && !is_slug_char(#[trigger] s@[i])),
                Err(SlugError::InvalidHyphenPosition) => 1 <= s@.len() <= MAX_SLUG_LENGTH
                    && (forall|i: int| 0 <= i < s@.len() ==> is_slug_char(#[trigger] s@[i]))
                    && (s@[0] == '-' || s@[s@.len() - 1] == '-'),
            },
    {
        let len = s.unicode_len();
        if len == 0 {
            return Err(SlugError::Empty);
        }
        if len > MAX_SLUG_LENGTH {
            return Err(SlugError::TooLong(len));
        }
        let mut i: usize = 0;
        while i < len
            invariant
                1 <= len <= MAX_SLUG_LENGTH,
                len == s@.len(),
                i <= len,
                forall|j: int| 0 <= j < i ==> is_slug_char(#[trigger] s@[j]),
            decreases len - i,
        {
            let c = s.get_char(i);
            if !(('a' <= c && c <= 'z') || ('0' <= c && c <= '9') || c == '-') {
                return Err(SlugError::InvalidCharacters);
            }
            i = i + 1;
        }
        if s.get_char(0) == '-' || s.get_char(len - 1) == '-' {
            return Err(SlugError::InvalidHyphenPosition);
        }
        Ok(Slug { text: s.to_owned() })
    }

    /// The slug's text.
    pub fn as_str(&self) -> (r: &str)
        ensures
            r@ == self@,
    {
        self.text.as_str()
    }

    /// Consume the slug, yielding its text.
    pub fn into_string(self) -> (r: String)
        ensures
            r@ == self@,
    {
        self.text
    }
}

impl Clone for Slug {
    fn clone(&self) -> (r: Self)
        ensures
            r@ == self@,
    {
        Slug { text: self.text.clone() }
    }
}

impl PartialEq for Slug {
    fn eq(&self, other: &Slug) -> (r: bool) {
        self.text.eq(&other.text)
    }
}

impl vstd::std_specs::cmp::PartialEqSpecImpl for Slug {
    open spec fn obeys_eq_spec() -> bool {
        true
    }

    open spec fn eq_spec(&self, other: &Slug) -> bool {
        self@ == other@
    }
}

/// Round trip: any slug rebuilt from the string form of `slug` — that is,
/// any slug whose text matches — is equal to `slug` under `==`.
pub proof fn lemma_slug_roundtrip(slug: Slug, rebuilt: Slug)
    requires
        rebuilt@ == slug@,
    ensures
        rebuilt.eq_spec(&slug),
{
}

} // verus!
